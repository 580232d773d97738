//! Where a file lands under the destination root.
//!
//! A copied file keeps the part of its path that begins at the source root's
//! own name. With the source root `work/photos` and the file
//! `/home/ann/work/photos/2020/a.jpg`, the file lands at `photos/2020/a.jpg`
//! under the destination root. The first part of the path that bears the
//! source root's name counts, so a directory of the same name further up the
//! path takes its place; this is not detected. A file whose path bears the
//! name nowhere is written into the directory `root` of the destination.

use vstd::prelude::*;
use vstd::string::StringExecFns;

verus! {

/// One part of a path, in the sense of `std::path::Component`.
#[derive(Debug)]
pub enum PathPart {
    /// A volume or drive prefix.
    Prefix,
    /// The root directory.
    RootDir,
    /// The current directory, `.`.
    CurDir,
    /// The parent directory, `..`.
    ParentDir,
    /// A name.
    Normal(String),
}

/// A part of a path as a mathematical value.
pub enum PartView {
    Prefix,
    RootDir,
    CurDir,
    ParentDir,
    Normal(Seq<char>),
}

impl View for PathPart {
    type V = PartView;

    open spec fn view(&self) -> PartView {
        match self {
            PathPart::Prefix => PartView::Prefix,
            PathPart::RootDir => PartView::RootDir,
            PathPart::CurDir => PartView::CurDir,
            PathPart::ParentDir => PartView::ParentDir,
            PathPart::Normal(name) => PartView::Normal(name@),
        }
    }
}

impl DeepView for PathPart {
    type V = PartView;

    open spec fn deep_view(&self) -> PartView {
        self@
    }
}

/// The segments that a run of parts contributes to a destination path: each
/// name, and `..` for each step to the parent; prefixes, roots and `.` are
/// dropped.
pub open spec fn carried(parts: Seq<PartView>) -> Seq<Seq<char>>
    decreases parts.len(),
{
    if parts.len() == 0 {
        Seq::empty()
    } else {
        match parts.last() {
            PartView::Normal(name) => carried(parts.drop_last()).push(name),
            PartView::ParentDir => carried(parts.drop_last()).push(".."@),
            _ => carried(parts.drop_last()),
        }
    }
}

/// `at` is the place of the first part that is the name `name`.
pub open spec fn is_anchor(parts: Seq<PartView>, name: Seq<char>, at: int) -> bool {
    &&& 0 <= at < parts.len()
    &&& parts[at] == PartView::Normal(name)
    &&& forall|before: int| 0 <= before < at ==> #[trigger] parts[before] != PartView::Normal(name)
}

/// Whether some part is the name `name`.
pub open spec fn has_anchor(parts: Seq<PartView>, name: Seq<char>) -> bool {
    exists|at: int| is_anchor(parts, name, at)
}

/// The path of a file relative to the destination root, segment by segment.
///
/// It is what the path carries from the first part that bears the source
/// root's name onward, that part included. A path without such a part is
/// placed under the single segment `root`.
pub open spec fn rewritten(parts: Seq<PartView>, source_name: Seq<char>) -> Seq<Seq<char>> {
    if has_anchor(parts, source_name) {
        let at = choose|at: int| is_anchor(parts, source_name, at);
        carried(parts.skip(at))
    } else {
        seq!["root"@]
    }
}

/// Where a file is written, relative to the destination root.
///
/// For a path that bears the source root's name, the directory is the
/// rewritten path without its last segment, and the file keeps its own name.
/// A path without that name puts the file into the directory `root`.
pub open spec fn destination(
    parts: Seq<PartView>,
    source_name: Seq<char>,
    file_name: Seq<char>,
) -> Seq<Seq<char>> {
    if has_anchor(parts, source_name) {
        rewritten(parts, source_name).drop_last().push(file_name)
    } else {
        seq!["root"@, file_name]
    }
}

/// What the path carries from the first part that bears the source root's
/// name onward, if there is such a part.
fn from_anchor(parts: &Vec<PathPart>, source_name: &str) -> (found: Option<Vec<String>>)
    ensures
        found is Some <==> has_anchor(parts.deep_view(), source_name@),
        found matches Some(segments) ==> segments.deep_view() == rewritten(
            parts.deep_view(),
            source_name@,
        ) && segments@.len() >= 1,
{
    let name = String::from_str(source_name);
    let ghost all = parts.deep_view();
    let mut at: usize = 0;
    let mut found = false;
    while at < parts.len() && !found
        invariant
            at <= parts@.len(),
            all == parts.deep_view(),
            name@ == source_name@,
            !found ==> forall|before: int|
                0 <= before < at ==> #[trigger] all[before] != PartView::Normal(name@),
            found ==> is_anchor(all, name@, at as int),
        decreases parts@.len() - at + if found { 0int } else { 1int },
    {
        let here = match &parts[at] {
            PathPart::Normal(text) => *text == name,
            _ => false,
        };
        if here {
            found = true;
        } else {
            at += 1;
        }
    }
    if !found {
        proof {
            assert(!has_anchor(all, name@)) by {
                if has_anchor(all, name@) {
                    let k = choose|k: int| is_anchor(all, name@, k);
                    assert(all[k] != PartView::Normal(name@));
                }
            }
        }
        return None;
    }
    let mut segments: Vec<String> = Vec::new();
    proof {
        let chosen = choose|k: int| is_anchor(all, name@, k);
        assert(is_anchor(all, name@, chosen));
        assert(chosen == at) by {
            if chosen < at {
                assert(all[chosen] != PartView::Normal(name@));
            }
            if at < chosen {
                assert(all[at as int] != PartView::Normal(name@));
            }
        }
        assert(all.skip(at as int).take(0) =~= Seq::empty());
        assert(segments.deep_view() =~= carried(all.skip(at as int).take(0)));
    }
    let ghost tail = all.skip(at as int);
    let start = at;
    let mut i: usize = at;
    while i < parts.len()
        invariant
            start <= i <= parts@.len(),
            all == parts.deep_view(),
            tail == all.skip(start as int),
            segments.deep_view() == carried(tail.take(i - start)),
            i > start ==> segments@.len() >= 1,
            is_anchor(all, name@, start as int),
        decreases parts@.len() - i,
    {
        let ghost so_far = segments.deep_view();
        proof {
            assert(tail.take(i - start + 1).drop_last() =~= tail.take(i - start));
            assert(tail.take(i - start + 1).last() == all[i as int]);
        }
        match &parts[i] {
            PathPart::Normal(text) => {
                segments.push(text.clone());
                proof {
                    assert(segments.deep_view() =~= so_far.push(text@));
                }
            },
            PathPart::ParentDir => {
                segments.push(String::from_str(".."));
                proof {
                    assert(segments.deep_view() =~= so_far.push(".."@));
                }
            },
            _ => {},
        }
        i += 1;
    }
    proof {
        assert(tail.take(i - start) =~= tail);
    }
    Some(segments)
}

/// Computes the path of a file relative to the destination root from the
/// parts of the file's path and the source root's own name.
pub fn rewrite(parts: &Vec<PathPart>, source_name: &str) -> (segments: Vec<String>)
    ensures
        segments.deep_view() == rewritten(parts.deep_view(), source_name@),
        segments@.len() >= 1,
{
    match from_anchor(parts, source_name) {
        Some(segments) => segments,
        None => {
            let mut segments: Vec<String> = Vec::new();
            segments.push(String::from_str("root"));
            proof {
                assert(segments.deep_view() =~= seq!["root"@]);
            }
            segments
        },
    }
}

/// Computes where a file is written, relative to the destination root, from
/// the parts of the file's path, the source root's own name and the file's
/// own name. All segments but the last name the directories to create.
pub fn destination_of(parts: &Vec<PathPart>, source_name: &str, file_name: &str) -> (segments: Vec<
    String,
>)
    ensures
        segments.deep_view() == destination(parts.deep_view(), source_name@, file_name@),
        segments@.len() >= 1,
{
    let mut segments = match from_anchor(parts, source_name) {
        Some(whole) => {
            let mut dir = whole;
            let ghost before = dir.deep_view();
            dir.pop();
            proof {
                assert(dir.deep_view() =~= before.drop_last());
            }
            dir
        },
        None => {
            let mut dir: Vec<String> = Vec::new();
            dir.push(String::from_str("root"));
            proof {
                assert(dir.deep_view() =~= seq!["root"@]);
            }
            dir
        },
    };
    let ghost dir = segments.deep_view();
    segments.push(String::from_str(file_name));
    proof {
        assert(segments.deep_view() =~= dir.push(file_name@));
        assert(seq!["root"@].push(file_name@) =~= seq!["root"@, file_name@]);
    }
    segments
}

/// Whether none of the parts is the name `name`.
pub open spec fn lacks(parts: Seq<PartView>, name: Seq<char>) -> bool {
    forall|i: int| 0 <= i < parts.len() ==> #[trigger] parts[i] != PartView::Normal(name)
}

/// Where a file lands does not depend on what lies above the source root.
///
/// Take a path made of some parts `above`, none of which bears the source
/// root's name, then the source root's name, then the parts `below`. Its
/// rewritten path is the source root's name followed by what `below` carries,
/// whatever `above` is: an absolute and a relative way to the same source root
/// place the file alike.
pub proof fn lemma_placement_ignores_what_lies_above(
    above: Seq<PartView>,
    source_name: Seq<char>,
    below: Seq<PartView>,
)
    requires
        lacks(above, source_name),
    ensures
        rewritten(above + seq![PartView::Normal(source_name)] + below, source_name) == seq![
            source_name,
        ] + carried(below),
{
    let anchor = seq![PartView::Normal(source_name)];
    let whole = above + anchor + below;
    let at = above.len() as int;
    assert(whole[at] == PartView::Normal(source_name));
    assert forall|before: int| 0 <= before < at implies #[trigger] whole[before]
        != PartView::Normal(source_name) by {
        assert(whole[before] == above[before]);
    }
    assert(is_anchor(whole, source_name, at));
    let chosen = choose|k: int| is_anchor(whole, source_name, k);
    assert(chosen == at) by {
        if chosen < at {
            assert(whole[chosen] != PartView::Normal(source_name));
        }
        if at < chosen {
            assert(whole[at] != PartView::Normal(source_name));
        }
    }
    assert(whole.skip(at) =~= anchor + below);
    lemma_carried_joins(anchor, below);
    assert(anchor.drop_last() =~= Seq::<PartView>::empty());
    assert(carried(anchor.drop_last()) =~= Seq::<Seq<char>>::empty());
    assert(carried(anchor) =~= seq![source_name]);
}

proof fn lemma_carried_joins(first: Seq<PartView>, second: Seq<PartView>)
    ensures
        carried(first + second) == carried(first) + carried(second),
    decreases second.len(),
{
    if second.len() == 0 {
        assert(first + second =~= first);
        assert(carried(first) + carried(second) =~= carried(first));
    } else {
        lemma_carried_joins(first, second.drop_last());
        assert((first + second).drop_last() =~= first + second.drop_last());
        assert((first + second).last() == second.last());
        match second.last() {
            PartView::Normal(name) => {
                assert(carried(first + second) =~= carried(first) + carried(second));
            },
            PartView::ParentDir => {
                assert(carried(first + second) =~= carried(first) + carried(second));
            },
            _ => {},
        }
    }
}

/// A path that bears the source root's name nowhere lands under `root`: the
/// file is written into the directory `root` of the destination, under its
/// own name.
pub proof fn lemma_stray_path_goes_under_root(
    parts: Seq<PartView>,
    source_name: Seq<char>,
    file_name: Seq<char>,
)
    requires
        lacks(parts, source_name),
    ensures
        rewritten(parts, source_name) == seq!["root"@],
        destination(parts, source_name, file_name) == seq!["root"@, file_name],
{
    if has_anchor(parts, source_name) {
        let k = choose|k: int| is_anchor(parts, source_name, k);
        assert(parts[k] != PartView::Normal(source_name));
    }
}

/// Whether every part is a name.
pub open spec fn all_names(parts: Seq<PartView>) -> bool {
    forall|i: int| 0 <= i < parts.len() ==> (#[trigger] parts[i]) is Normal
}

proof fn lemma_names_are_carried(parts: Seq<PartView>)
    requires
        all_names(parts),
    ensures
        carried(parts).len() == parts.len(),
        forall|i: int|
            0 <= i < parts.len() ==> PartView::Normal(#[trigger] carried(parts)[i]) == parts[i],
    decreases parts.len(),
{
    if parts.len() > 0 {
        let rest = parts.drop_last();
        assert forall|i: int| 0 <= i < rest.len() implies (#[trigger] rest[i]) is Normal by {
            assert(rest[i] == parts[i]);
        }
        lemma_names_are_carried(rest);
        assert(parts[parts.len() - 1] is Normal);
        assert forall|i: int| 0 <= i < parts.len() implies PartView::Normal(
            #[trigger] carried(parts)[i],
        ) == parts[i] by {
            if i < rest.len() {
                assert(carried(parts)[i] == carried(rest)[i]);
                assert(rest[i] == parts[i]);
            }
        }
    }
}

/// Two files of one source tree land in different places.
///
/// Take two paths that reach the source root the same way and go on below it
/// through names only. If they differ below the source root, so do their
/// rewritten paths: no two files of a backup are written to one place.
pub proof fn lemma_distinct_files_land_apart(
    above: Seq<PartView>,
    source_name: Seq<char>,
    one: Seq<PartView>,
    other: Seq<PartView>,
)
    requires
        lacks(above, source_name),
        all_names(one),
        all_names(other),
        one != other,
    ensures
        rewritten(above + seq![PartView::Normal(source_name)] + one, source_name) != rewritten(
            above + seq![PartView::Normal(source_name)] + other,
            source_name,
        ),
{
    lemma_placement_ignores_what_lies_above(above, source_name, one);
    lemma_placement_ignores_what_lies_above(above, source_name, other);
    lemma_names_are_carried(one);
    lemma_names_are_carried(other);
    let left = seq![source_name] + carried(one);
    let right = seq![source_name] + carried(other);
    if left == right {
        assert(left.len() == right.len());
        assert forall|i: int| 0 <= i < one.len() implies one[i] == other[i] by {
            assert(left[i + 1] == carried(one)[i]);
            assert(right[i + 1] == carried(other)[i]);
        }
        assert(one =~= other);
    }
}

} // verus!
