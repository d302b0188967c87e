//! The shapes that a schema's enumerations take: a closed set of discriminants
//! with a lookup that can fail, and a set of flags in the bits of a word.

use vstd::prelude::*;
use vstd::std_specs::ops::{BitAndSpecImpl, BitOrSpecImpl, BitXorSpecImpl, NotSpecImpl};
use vstd::string::*;

verus! {

/// Looks `value` up in the discriminants that a closed enumeration declares.
///
/// Gives the place of the first that equals `value`. Where none does, `value`
/// itself comes back as the failure, for the caller to treat as fatal or as a
/// variant it does not know yet.
pub fn discriminant_index(declared: &[u64], value: u64) -> (r: Result<usize, u64>)
    ensures
        match r {
            Ok(index) => {
                &&& index < declared@.len()
                &&& declared@[index as int] == value
                &&& forall|earlier: int| 0 <= earlier < index ==> declared@[earlier] != value
            },
            Err(raw) => {
                &&& raw == value
                &&& forall|any: int| 0 <= any < declared@.len() ==> declared@[any] != value
            },
        },
{
    let mut index: usize = 0;
    while index < declared.len()
        invariant
            index <= declared@.len(),
            forall|earlier: int| 0 <= earlier < index ==> declared@[earlier] != value,
        decreases declared@.len() - index,
    {
        if declared[index] == value {
            return Ok(index);
        }
        index += 1;
    }
    Err(value)
}

/// A set of flags, one bit of a 32-bit word each.
#[derive(Debug, Clone, Copy, PartialEq, Eq, Structural)]
pub struct Bitfield {
    bits: u32,
}

impl View for Bitfield {
    type V = u32;

    /// The word that holds the flags.
    closed spec fn view(&self) -> u32 {
        self.bits
    }
}

/// Every bit of `flags` is set in `bits`.
pub open spec fn has_flags(bits: u32, flags: u32) -> bool {
    bits & flags == flags
}

/// The names of the rows of `table` whose flags are all set in `bits`, in the
/// order of the table.
pub open spec fn set_names<'a>(bits: u32, table: Seq<(Bitfield, &'a str)>) -> Seq<Seq<char>>
    decreases table.len(),
{
    if table.len() == 0 {
        Seq::empty()
    } else {
        let earlier = set_names(bits, table.drop_last());
        if has_flags(bits, table.last().0@) {
            earlier.push(table.last().1@)
        } else {
            earlier
        }
    }
}

/// `names` with `" | "` between each two.
pub open spec fn joined(names: Seq<Seq<char>>) -> Seq<char>
    decreases names.len(),
{
    if names.len() == 0 {
        Seq::empty()
    } else if names.len() == 1 {
        names[0]
    } else {
        joined(names.drop_last()) + " | "@ + names.last()
    }
}

/// The text of a set of flags: the names of those that are set, joined by
/// `" | "`, or `"NONE"` where none is.
pub open spec fn rendered<'a>(bits: u32, table: Seq<(Bitfield, &'a str)>) -> Seq<char> {
    if set_names(bits, table).len() == 0 {
        "NONE"@
    } else {
        joined(set_names(bits, table))
    }
}

impl Bitfield {
    /// The set with no flag in it.
    pub fn empty() -> (flags: Self)
        ensures
            flags@ == 0,
    {
        Bitfield { bits: 0 }
    }

    /// The set that the word `bits` holds, whether or not every bit of it is
    /// a flag that the schema declares: nothing is checked.
    pub fn from_bits_unchecked(bits: u32) -> (flags: Self)
        ensures
            flags@ == bits,
    {
        Bitfield { bits }
    }

    /// The word that holds the flags.
    pub fn bits(&self) -> (bits: u32)
        ensures
            bits == self@,
    {
        self.bits
    }

    /// Whether every flag of `other` is in `self`.
    pub fn is_set(&self, other: Self) -> (set: bool)
        ensures
            set == has_flags(self@, other@),
    {
        (self.bits & other.bits) == other.bits
    }

    /// `self` with the flags of `other` added.
    pub fn set(&self, other: Self) -> (flags: Self)
        ensures
            flags@ == self@ | other@,
    {
        Bitfield { bits: self.bits | other.bits }
    }

    /// `self` with the flags of `other` taken out.
    pub fn clear(&self, other: Self) -> (flags: Self)
        ensures
            flags@ == self@ & !other@,
    {
        Bitfield { bits: self.bits & !other.bits }
    }

    /// The names of the flags that are set, in the order of `table` and
    /// joined by `" | "`, or `"NONE"` where none is.
    pub fn render(&self, table: &[(Bitfield, &str)]) -> (text: String)
        ensures
            text@ == rendered(self@, table@),
    {
        let mut text = String::new();
        let mut first = true;
        let mut row: usize = 0;
        assert(table@.take(0) =~= Seq::empty());
        while row < table.len()
            invariant
                row <= table@.len(),
                first == (set_names(self@, table@.take(row as int)).len() == 0),
                text@ == joined(set_names(self@, table@.take(row as int))),
            decreases table@.len() - row,
        {
            let ghost earlier = set_names(self@, table@.take(row as int));
            assert(table@.take(row + 1).drop_last() =~= table@.take(row as int));
            let (flags, name) = table[row];
            if self.is_set(flags) {
                if !first {
                    text.append(" | ");
                    assert(earlier.push(name@).drop_last() =~= earlier);
                }
                text.append(name);
                first = false;
            }
            row += 1;
        }
        assert(table@.take(table@.len() as int) =~= table@);
        if first {
            text.append("NONE");
        }
        text
    }
}

impl core::ops::BitAnd for Bitfield {
    type Output = Bitfield;

    /// The flags that are in both sets.
    fn bitand(self, rhs: Bitfield) -> (flags: Bitfield)
        ensures
            flags@ == self@ & rhs@,
    {
        Bitfield { bits: self.bits & rhs.bits }
    }
}

impl BitAndSpecImpl for Bitfield {
    open spec fn obeys_bitand_spec() -> bool {
        true
    }

    open spec fn bitand_req(self, rhs: Bitfield) -> bool {
        true
    }

    closed spec fn bitand_spec(self, rhs: Bitfield) -> Bitfield {
        Bitfield { bits: self.bits & rhs.bits }
    }
}

impl core::ops::BitOr for Bitfield {
    type Output = Bitfield;

    /// The flags that are in either set.
    fn bitor(self, rhs: Bitfield) -> (flags: Bitfield)
        ensures
            flags@ == self@ | rhs@,
    {
        Bitfield { bits: self.bits | rhs.bits }
    }
}

impl BitOrSpecImpl for Bitfield {
    open spec fn obeys_bitor_spec() -> bool {
        true
    }

    open spec fn bitor_req(self, rhs: Bitfield) -> bool {
        true
    }

    closed spec fn bitor_spec(self, rhs: Bitfield) -> Bitfield {
        Bitfield { bits: self.bits | rhs.bits }
    }
}

impl core::ops::BitXor for Bitfield {
    type Output = Bitfield;

    /// The flags that are in one set and not in the other.
    fn bitxor(self, rhs: Bitfield) -> (flags: Bitfield)
        ensures
            flags@ == self@ ^ rhs@,
    {
        Bitfield { bits: self.bits ^ rhs.bits }
    }
}

impl BitXorSpecImpl for Bitfield {
    open spec fn obeys_bitxor_spec() -> bool {
        true
    }

    open spec fn bitxor_req(self, rhs: Bitfield) -> bool {
        true
    }

    closed spec fn bitxor_spec(self, rhs: Bitfield) -> Bitfield {
        Bitfield { bits: self.bits ^ rhs.bits }
    }
}

impl core::ops::Not for Bitfield {
    type Output = Bitfield;

    /// The flags that are not in the set.
    fn not(self) -> (flags: Bitfield)
        ensures
            flags@ == !self@,
    {
        Bitfield { bits: !self.bits }
    }
}

impl NotSpecImpl for Bitfield {
    open spec fn obeys_not_spec() -> bool {
        true
    }

    open spec fn not_req(self) -> bool {
        true
    }

    closed spec fn not_spec(self) -> Bitfield {
        Bitfield { bits: !self.bits }
    }
}

} // verus!
