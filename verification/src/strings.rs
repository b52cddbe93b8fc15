//! The static strings that records refer to.
//!
//! A record names its format string and its source file by a reference and a
//! length instead of copying them. A ring keeps the strings its records refer
//! to, each once.

use crate::text::same_text;
use vstd::prelude::*;
use vstd::string::*;

verus! {

/// How a record names a static string: a reference and the lowest 16 bits of
/// the string's length.
#[derive(Debug, Clone, Copy, PartialEq, Eq, Structural)]
pub struct StrRef {
    pub addr: u64,
    pub len: u16,
}

/// The number of strings that a new table has room for.
pub const TABLE_CAPACITY: usize = 1024;

/// The strings that a ring's records refer to. The reference to a string is
/// its position here.
pub struct StrTable {
    pub strings: Vec<&'static str>,
}

impl View for StrTable {
    type V = Seq<Seq<u8>>;

    /// The UTF-8 bytes of the strings.
    closed spec fn view(&self) -> Seq<Seq<u8>> {
        self.strings@.map_values(|s: &'static str| s.spec_bytes())
    }
}

/// The bytes that `r` names, where it names a string of `table`.
pub open spec fn resolved(table: Seq<Seq<u8>>, r: StrRef) -> Option<Seq<u8>> {
    if r.addr < table.len() && r.len <= table[r.addr as int].len() && vstd::utf8::is_char_boundary(
        table[r.addr as int],
        r.len as int,
    ) {
        Some(table[r.addr as int].take(r.len as int))
    } else {
        None
    }
}

/// Whether `old` is what `table` started with.
pub open spec fn grows(old: Seq<Seq<u8>>, table: Seq<Seq<u8>>) -> bool {
    &&& old.len() <= table.len()
    &&& table.take(old.len() as int) == old
}

impl StrTable {
    /// Creates an empty table, with room for the strings of many call sites so
    /// that logging does not allocate.
    pub fn new() -> (t: StrTable)
        ensures
            t@ == Seq::<Seq<u8>>::empty(),
    {
        let t = StrTable { strings: Vec::with_capacity(TABLE_CAPACITY) };
        assert(t@ =~= Seq::<Seq<u8>>::empty());
        t
    }

    /// Returns the reference to `s`, adding it where the table does not hold
    /// it yet.
    pub fn intern(&mut self, s: &'static str) -> (r: StrRef)
        ensures
            grows(old(self)@, final(self)@),
            final(self)@.len() <= old(self)@.len() + 1,
            r.addr < final(self)@.len(),
            final(self)@[r.addr as int] == s.spec_bytes(),
            r.len == s.spec_bytes().len() % 0x1_0000,
            old(self)@.contains(s.spec_bytes()) ==> final(self)@ == old(self)@,
    {
        let len: u16 = (s.as_bytes().len() % 0x1_0000) as u16;
        let mut i: usize = 0;
        proof {
            assert(self@.take(self@.len() as int) =~= self@);
        }
        while i < self.strings.len()
            invariant
                i <= self@.len(),
                self@.len() == self.strings@.len(),
                *self == *old(self),
                self@.take(self@.len() as int) == self@,
                len == s.spec_bytes().len() % 0x1_0000,
                forall|j: int| 0 <= j < i ==> #[trigger] self@[j] != s.spec_bytes(),
            decreases self.strings@.len() - i,
        {
            if same_text(self.strings[i], s) {
                return StrRef { addr: i as u64, len };
            }
            i = i + 1;
        }
        let addr: u64 = self.strings.len() as u64;
        self.strings.push(s);
        proof {
            assert(self@ =~= old(self)@.push(s.spec_bytes()));
            assert(self@.take(old(self)@.len() as int) =~= old(self)@);
        }
        StrRef { addr, len }
    }

    /// Copies the table.
    pub fn duplicate(&self) -> (t: StrTable)
        ensures
            t@ == self@,
    {
        let mut strings: Vec<&'static str> = Vec::new();
        let mut i: usize = 0;
        while i < self.strings.len()
            invariant
                i <= self.strings@.len(),
                strings@ == self.strings@.take(i as int),
            decreases self.strings@.len() - i,
        {
            strings.push(self.strings[i]);
            i = i + 1;
            assert(strings@ =~= self.strings@.take(i as int));
        }
        assert(strings@ =~= self.strings@);
        StrTable { strings }
    }

    /// Returns the string that `r` names: the first `r.len` bytes of one that
    /// the table holds, where they end at a character boundary.
    pub fn resolve(&self, r: StrRef) -> (s: Option<&'static str>)
        ensures
            match resolved(self@, r) {
                Some(bytes) => s matches Some(text) && text.spec_bytes() == bytes,
                None => s is None,
            },
    {
        if r.addr >= self.strings.len() as u64 {
            return None;
        }
        let text: &'static str = self.strings[r.addr as usize];
        let len: usize = r.len as usize;
        if len > text.as_bytes().len() || !text.is_char_boundary(len) {
            return None;
        }
        let (front, _) = text.split_at(len);
        proof {
            assert(text.spec_bytes().subrange(0, len as int) =~= text.spec_bytes().take(
                len as int,
            ));
        }
        Some(front)
    }
}

/// What a reference names stays the same when the table grows.
pub proof fn resolved_stable(table: Seq<Seq<u8>>, grown: Seq<Seq<u8>>, r: StrRef)
    requires
        grows(table, grown),
        resolved(table, r) is Some,
    ensures
        resolved(grown, r) == resolved(table, r),
{
    assert(grown[r.addr as int] == grown.take(table.len() as int)[r.addr as int]);
}

/// Growing twice is growing.
pub proof fn grows_twice(a: Seq<Seq<u8>>, b: Seq<Seq<u8>>, c: Seq<Seq<u8>>)
    requires
        grows(a, b),
        grows(b, c),
    ensures
        grows(a, c),
{
    assert(c.take(a.len() as int) =~= c.take(b.len() as int).take(a.len() as int));
}

/// A string that the table was given is what its reference names, also after
/// the table has grown, where 16 bits can hold its length.
pub proof fn interned_resolves(table: Seq<Seq<u8>>, grown: Seq<Seq<u8>>, r: StrRef, s: Seq<char>)
    requires
        grows(table, grown),
        r.addr < table.len(),
        table[r.addr as int] == vstd::utf8::encode_utf8(s),
        r.len == vstd::utf8::encode_utf8(s).len(),
    ensures
        resolved(grown, r) == Some(vstd::utf8::encode_utf8(s)),
{
    let bytes = vstd::utf8::encode_utf8(s);
    vstd::utf8::encode_utf8_valid_utf8(s);
    vstd::utf8::is_char_boundary_start_end_of_seq(bytes);
    assert(grown[r.addr as int] == grown.take(table.len() as int)[r.addr as int]);
    assert(bytes.take(bytes.len() as int) =~= bytes);
}

// ---- Valid text -------------------------------------------------------------

/// Whether all that `table` holds is valid UTF-8.
pub open spec fn holds_text(table: Seq<Seq<u8>>) -> bool {
    forall|i: int| 0 <= i < table.len() ==> vstd::utf8::valid_utf8(#[trigger] table[i])
}

/// A table holds valid UTF-8.
pub proof fn table_holds_text(table: &StrTable)
    ensures
        holds_text(table@),
{
    assert forall|i: int| 0 <= i < table@.len() implies vstd::utf8::valid_utf8(
        #[trigger] table@[i],
    ) by {
        vstd::utf8::encode_utf8_valid_utf8(table.strings@[i]@);
    }
}

/// What a reference names in such a table is valid UTF-8.
pub proof fn resolved_is_text(table: Seq<Seq<u8>>, r: StrRef)
    requires
        holds_text(table),
    ensures
        resolved(table, r) matches Some(s) ==> vstd::utf8::valid_utf8(s),
{
    if resolved(table, r) is Some {
        let whole = table[r.addr as int];
        vstd::utf8::valid_utf8_split(whole, r.len as int);
        assert(whole.take(r.len as int) =~= whole.subrange(0, r.len as int));
    }
}

} // verus!
