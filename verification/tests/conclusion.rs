use hardcpy::conclusion::{Conclusion, ConclusionFields};
use hardcpy::size::FileSize;

fn pair(from: &str, to: &str) -> ConclusionFields {
    ConclusionFields::PathCouple((from.to_string(), to.to_string()))
}

#[test]
fn new_conclusion_is_empty() {
    let conclusion = Conclusion::new();
    assert_eq!(conclusion.total_count, 0);
    assert_eq!(conclusion.error_count, 0);
    assert!(conclusion.error_list.is_empty());
    assert!(conclusion.path_list.is_empty());
    assert_eq!(conclusion.total_size.byte, 0);
    assert_eq!(conclusion.total_size.to_string(), "0 Bytes");
}

#[test]
fn absorb_takes_each_kind_of_result() {
    let mut conclusion = Conclusion::new();
    assert!(conclusion.absorb(ConclusionFields::TotalCount(3)));
    assert!(conclusion.absorb(ConclusionFields::FileSize(FileSize::from_bytes(5000))));
    assert!(conclusion.absorb(ConclusionFields::Error("first".to_string())));
    assert!(conclusion.absorb(pair("a", "b")));
    assert!(conclusion.absorb(ConclusionFields::TotalCount(2)));
    assert!(conclusion.absorb(ConclusionFields::Error("second".to_string())));
    assert_eq!(conclusion.total_count, 5);
    assert_eq!(conclusion.total_size.byte, 5000);
    assert_eq!(conclusion.error_count, 2);
    assert_eq!(conclusion.error_list, vec!["first".to_string(), "second".to_string()]);
    assert_eq!(conclusion.path_list, vec![("a".to_string(), "b".to_string())]);
}

#[test]
fn units_wait_for_settle() {
    let mut conclusion = Conclusion::new();
    assert!(conclusion.absorb(ConclusionFields::FileSize(FileSize::from_bytes(3 * 1024 * 1024))));
    assert_eq!(conclusion.total_size.byte, 3 * 1024 * 1024);
    assert_eq!(conclusion.total_size.mb, 0);
    conclusion.settle();
    assert_eq!(conclusion.total_size.mb, 3);
    assert_eq!(conclusion.total_size.kb, 3 * 1024);
    assert_eq!(conclusion.total_size.to_string(), "3 MB");
}

#[test]
fn absorb_refuses_what_does_not_fit() {
    let mut conclusion = Conclusion::new();
    assert!(conclusion.absorb(ConclusionFields::TotalCount(usize::MAX - 1)));
    assert!(!conclusion.absorb(ConclusionFields::TotalCount(2)));
    assert_eq!(conclusion.total_count, usize::MAX - 1);
    assert!(conclusion.absorb(ConclusionFields::TotalCount(1)));
    assert_eq!(conclusion.total_count, usize::MAX);
    assert!(conclusion.absorb(ConclusionFields::FileSize(FileSize::from_bytes(usize::MAX))));
    assert!(!conclusion.absorb(ConclusionFields::FileSize(FileSize::from_bytes(1))));
    assert_eq!(conclusion.total_size.byte, usize::MAX);
    assert!(conclusion.absorb(ConclusionFields::Error("still fits".to_string())));
    assert_eq!(conclusion.error_count, 1);
}

#[test]
fn absorb_all_takes_the_stream_in_order() {
    let mut conclusion = Conclusion::new();
    let taken = conclusion.absorb_all(vec![
        ConclusionFields::FileSize(FileSize::from_bytes(2048)),
        ConclusionFields::TotalCount(1),
        ConclusionFields::Error("e1".to_string()),
        pair("s1", "d1"),
        ConclusionFields::FileSize(FileSize::from_bytes(1024)),
        ConclusionFields::TotalCount(1),
        pair("s2", "d2"),
        ConclusionFields::Error("e2".to_string()),
    ]);
    assert_eq!(taken, 8);
    assert_eq!(conclusion.total_count, 2);
    assert_eq!(conclusion.total_size.byte, 3072);
    assert_eq!(conclusion.total_size.kb, 3);
    assert_eq!(conclusion.error_count, 2);
    assert_eq!(conclusion.error_list, vec!["e1".to_string(), "e2".to_string()]);
    assert_eq!(
        conclusion.path_list,
        vec![("s1".to_string(), "d1".to_string()), ("s2".to_string(), "d2".to_string())]
    );
}

#[test]
fn absorb_all_stops_where_a_counter_would_overflow() {
    let mut conclusion = Conclusion::new();
    let taken = conclusion.absorb_all(vec![
        ConclusionFields::TotalCount(usize::MAX),
        ConclusionFields::Error("kept".to_string()),
        ConclusionFields::TotalCount(1),
        ConclusionFields::Error("left out".to_string()),
    ]);
    assert_eq!(taken, 2);
    assert_eq!(conclusion.total_count, usize::MAX);
    assert_eq!(conclusion.error_list, vec!["kept".to_string()]);
    assert_eq!(conclusion.error_count, 1);
}

#[test]
fn absorb_all_of_nothing_changes_nothing() {
    let mut conclusion = Conclusion::new();
    assert!(conclusion.absorb(ConclusionFields::TotalCount(4)));
    assert_eq!(conclusion.absorb_all(Vec::new()), 0);
    assert_eq!(conclusion.total_count, 4);
    assert_eq!(conclusion.error_count, 0);
}

fn stream(order: &[usize]) -> Vec<ConclusionFields> {
    order
        .iter()
        .map(|&i| match i {
            0 => ConclusionFields::TotalCount(1),
            1 => ConclusionFields::FileSize(FileSize::from_bytes(700)),
            2 => ConclusionFields::Error("gone".to_string()),
            3 => pair("x", "y"),
            4 => ConclusionFields::TotalCount(5),
            _ => ConclusionFields::FileSize(FileSize::from_bytes(1 << 20)),
        })
        .collect()
}

#[test]
fn counts_do_not_depend_on_the_order_of_arrival() {
    let orders: [[usize; 6]; 4] =
        [[0, 1, 2, 3, 4, 5], [5, 4, 3, 2, 1, 0], [2, 0, 4, 1, 5, 3], [3, 5, 1, 4, 0, 2]];
    for order in orders {
        let mut conclusion = Conclusion::new();
        assert_eq!(conclusion.absorb_all(stream(&order)), 6);
        assert_eq!(conclusion.total_count, 6);
        assert_eq!(conclusion.total_size.byte, 700 + (1 << 20));
        assert_eq!(conclusion.total_size.mb, 1);
        assert_eq!(conclusion.error_count, 1);
        assert_eq!(conclusion.path_list.len(), 1);
    }
}
