//! Byte counts and their breakdown into binary units.

use crate::text::{decimal, push_decimal, push_two_digits, two_digits};
use vstd::prelude::*;
use vstd::std_specs::convert::FromSpecImpl;
use vstd::string::StringExecFns;

verus! {

/// A byte count together with the whole kibibytes, mebibytes and gibibytes
/// it amounts to.
///
/// `byte` is the value itself; the other three fields are derived from it by
/// [`FileSize::update`] and are stale between a change of `byte` and the next
/// call of `update`.
#[derive(Copy, Clone, Debug)]
pub struct FileSize {
    pub gb: usize,
    pub mb: usize,
    pub kb: usize,
    pub byte: usize,
}

/// `mb` mebibytes expressed in hundredths of a gibibyte, rounded to the nearest
/// hundredth; a value exactly halfway between two hundredths goes to the even one.
pub open spec fn gib_hundredths(mb: nat) -> nat {
    let scaled = (mb % 1024) * 100;
    let below = scaled / 1024;
    let rest = scaled % 1024;
    let up: nat = if rest > 512 || (rest == 512 && below % 2 == 1) {
        1
    } else {
        0
    };
    (mb / 1024) * 100 + below + up
}

impl FileSize {
    /// The derived units agree with the byte count.
    pub open spec fn consistent(&self) -> bool {
        &&& self.kb == self.byte / 1024
        &&& self.mb == self.byte / 1024 / 1024
        &&& self.gb == self.byte / 1024 / 1024 / 1024
    }

    /// The size of nothing.
    pub fn new() -> (size: FileSize)
        ensures
            size.byte == 0,
            size.kb == 0,
            size.mb == 0,
            size.gb == 0,
            size.consistent(),
    {
        FileSize { gb: 0, mb: 0, kb: 0, byte: 0 }
    }

    /// The size of `bytes` bytes, with its units computed.
    pub fn from_bytes(bytes: usize) -> (size: FileSize)
        ensures
            size.byte == bytes,
            size.consistent(),
    {
        let mut size = FileSize::new();
        size.byte = bytes;
        size.update();
        size
    }

    /// How the size reads: in the largest unit of which it holds at least one,
    /// whole numbers for bytes, KB and MB, two decimals for GB.
    pub open spec fn text(&self) -> Seq<char> {
        if self.gb != 0 {
            let h = gib_hundredths(self.mb as nat);
            decimal(h / 100) + "."@ + two_digits(h % 100) + " GB"@
        } else if self.mb != 0 {
            decimal(self.mb as nat) + " MB"@
        } else if self.kb != 0 {
            decimal(self.kb as nat) + " KB"@
        } else {
            decimal(self.byte as nat) + " Bytes"@
        }
    }

    /// Recomputes the derived units from `byte`.
    pub fn update(&mut self)
        ensures
            final(self).byte == old(self).byte,
            final(self).consistent(),
    {
        self.kb = self.byte / 1024;
        self.mb = self.kb / 1024;
        self.gb = self.mb / 1024;
    }

    /// Renders the size for a reader, as [`FileSize::text`] defines it.
    ///
    /// The unit is chosen by the derived fields as they stand, so call
    /// [`FileSize::update`] first if `byte` has changed.
    pub fn to_string(&self) -> (text: String)
        ensures
            text@ == self.text(),
    {
        let mut text = String::new();
        if self.gb != 0 {
            let mb: u64 = self.mb as u64;
            let scaled: u64 = (mb % 1024) * 100;
            let below: u64 = scaled / 1024;
            let rest: u64 = scaled % 1024;
            let up: u64 = if rest > 512 || (rest == 512 && below % 2 == 1) {
                1
            } else {
                0
            };
            let h: u64 = (mb / 1024) * 100 + below + up;
            push_decimal(&mut text, h / 100);
            text.append(".");
            push_two_digits(&mut text, h % 100);
            text.append(" GB");
        } else if self.mb != 0 {
            push_decimal(&mut text, self.mb as u64);
            text.append(" MB");
        } else if self.kb != 0 {
            push_decimal(&mut text, self.kb as u64);
            text.append(" KB");
        } else {
            push_decimal(&mut text, self.byte as u64);
            text.append(" Bytes");
        }
        text
    }
}

impl From<u64> for FileSize {
    /// The size of `value` bytes, with its units computed. On a machine whose
    /// `usize` is narrower than 64 bits the count is cut to that width.
    fn from(value: u64) -> (size: FileSize) {
        FileSize::from_bytes(value as usize)
    }
}

impl FromSpecImpl<u64> for FileSize {
    open spec fn obeys_from_spec() -> bool {
        true
    }

    open spec fn from_spec(value: u64) -> FileSize {
        let byte = value as usize;
        FileSize {
            byte,
            kb: byte / 1024,
            mb: byte / 1024 / 1024,
            gb: byte / 1024 / 1024 / 1024,
        }
    }
}

} // verus!
