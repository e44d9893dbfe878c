//! The forward table, used to encrypt: from operation token to code byte.
//! Where a table names a token more than once, the last line wins.

use vstd::prelude::*;
use vstd::hash_map::StringHashMap;
use crate::error::CipherError;
use crate::table::{entry_views, parse_entries, table_entries, Entry, TableEntry};

verus! {

/// The forward mapping of a sequence of entries: each entry is written over
/// what the earlier ones said of its token.
pub open spec fn forward_of(entries: Seq<Entry>) -> Map<Seq<char>, u8>
    decreases entries.len(),
{
    if entries.len() == 0 {
        Map::empty()
    } else {
        forward_of(entries.drop_last()).insert(entries.last().token, entries.last().code)
    }
}

/// A token has a code byte exactly where some entry names it.
pub proof fn lemma_forward_domain(entries: Seq<Entry>, token: Seq<char>)
    ensures
        forward_of(entries).contains_key(token) <==> exists|i: int|
            0 <= i < entries.len() && (#[trigger] entries[i]).token == token,
    decreases entries.len(),
{
    if entries.len() > 0 {
        let earlier = entries.drop_last();
        lemma_forward_domain(earlier, token);
        if entries.last().token == token {
        } else if forward_of(earlier).contains_key(token) {
            let i = choose|i: int| 0 <= i < earlier.len() && (#[trigger] earlier[i]).token == token;
        } else {
            assert forall|i: int| 0 <= i < entries.len() implies (#[trigger] entries[i]).token
                != token by {
                if i < earlier.len() {
                    assert(earlier[i].token != token);
                }
            }
        }
    }
}

/// The code byte of a token is that of one of the entries that name it.
pub proof fn lemma_forward_is_entry(entries: Seq<Entry>, token: Seq<char>)
    requires
        forward_of(entries).contains_key(token),
    ensures
        exists|i: int|
            0 <= i < entries.len() && (#[trigger] entries[i]).token == token && entries[i].code
                == forward_of(entries)[token],
    decreases entries.len(),
{
    if entries.len() > 0 {
        let earlier = entries.drop_last();
        let last = entries.len() - 1;
        if entries[last].token == token {
        } else {
            lemma_forward_is_entry(earlier, token);
            let i = choose|i: int|
                0 <= i < earlier.len() && (#[trigger] earlier[i]).token == token && earlier[i].code
                    == forward_of(earlier)[token];
        }
    }
}

/// Last line wins: the code byte of a token is that of the last entry that
/// names it.
pub proof fn lemma_forward_last_wins(entries: Seq<Entry>, i: int)
    requires
        0 <= i < entries.len(),
        forall|j: int| i < j < entries.len() ==> (#[trigger] entries[j]).token != entries[i].token,
    ensures
        forward_of(entries).contains_key(entries[i].token),
        forward_of(entries)[entries[i].token] == entries[i].code,
    decreases entries.len(),
{
    if i < entries.len() - 1 {
        lemma_forward_last_wins(entries.drop_last(), i);
    }
}

/// The forward table of a conversion table.
pub struct ForwardTable {
    codes: StringHashMap<u8>,
}

impl View for ForwardTable {
    type V = Map<Seq<char>, u8>;

    closed spec fn view(&self) -> Map<Seq<char>, u8> {
        self.codes@
    }
}

impl ForwardTable {
    /// A table without entries.
    pub fn new() -> (table: Self)
        ensures
            table@ == Map::<Seq<char>, u8>::empty(),
    {
        ForwardTable { codes: StringHashMap::new() }
    }

    /// Gives `token` the code byte `code`, in place of any it had.
    pub fn insert(&mut self, token: String, code: u8)
        ensures
            final(self)@ == old(self)@.insert(token@, code),
    {
        self.codes.insert(token, code);
    }

    /// The code byte of `token`, where it has one.
    pub fn get(&self, token: &str) -> (code: Option<u8>)
        ensures
            code == if self@.contains_key(token@) {
                Some(self@[token@])
            } else {
                None
            },
    {
        match self.codes.get(token) {
            Some(code) => Some(*code),
            None => None,
        }
    }

    /// The forward table of `entries`, taken in order.
    pub fn from_entries(entries: &Vec<TableEntry>) -> (table: Self)
        ensures
            table@ == forward_of(entry_views(entries@)),
    {
        let mut table = ForwardTable::new();
        let mut i: usize = 0;
        while i < entries.len()
            invariant
                i <= entries@.len(),
                table@ == forward_of(entry_views(entries@).take(i as int)),
            decreases entries@.len() - i,
        {
            let ghost views = entry_views(entries@);
            assert(views.take(i as int + 1).drop_last() == views.take(i as int));
            table.insert(entries[i].token.clone(), entries[i].code);
            i += 1;
        }
        assert(entry_views(entries@).take(i as int) == entry_views(entries@));
        table
    }
}

/// Reads the forward table from the text of a conversion table. It fails,
/// with a parse error, exactly where a line of the text is malformed.
pub fn parse_conversion_table(text: &str) -> (r: Result<ForwardTable, CipherError>)
    ensures
        match table_entries(text@) {
            Some(entries) => r is Ok && r->Ok_0@ == forward_of(entries),
            None => r is Err && r->Err_0 == CipherError::Parse,
        },
{
    match parse_entries(text) {
        Ok(entries) => Ok(ForwardTable::from_entries(&entries)),
        Err(e) => Err(e),
    }
}

} // verus!
