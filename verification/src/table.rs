//! The conversion table: lines `TOKEN=HH` that give each operation token a
//! code byte. Lines without `=` are ignored; a line with `=` whose value is
//! not two hexadecimal digits makes the whole table malformed.

use vstd::prelude::*;
use crate::error::CipherError;
use crate::text::{
    chars_of, find, find_in, hex_byte, lemma_find, parse_hex_byte, string_of, trim, trim_range,
};

verus! {

/// What one line of a table says: `token` stands for `code`.
pub struct Entry {
    /// The token, as written: what stands before the `=`.
    pub token: Seq<char>,
    /// The code byte: what stands behind the `=`.
    pub code: u8,
}

/// One line of a table, as read.
#[derive(Debug, PartialEq, Eq)]
pub struct TableEntry {
    /// The token, as written: what stands before the `=`.
    pub token: String,
    /// The code byte: what stands behind the `=`.
    pub code: u8,
}

impl View for TableEntry {
    type V = Entry;

    open spec fn view(&self) -> Entry {
        Entry { token: self.token@, code: self.code }
    }
}

/// The entries that a sequence of lines, as read, stands for.
pub open spec fn entry_views(entries: Seq<TableEntry>) -> Seq<Entry> {
    entries.map_values(|e: TableEntry| e@)
}

/// The meaning of a single line.
pub enum Line {
    /// No `=`: the line says nothing.
    Ignored,
    /// A token and its code byte.
    Entry(Entry),
    /// An `=` that is not followed by exactly two hexadecimal digits.
    Malformed,
}

/// Reads one line: the token is what stands before the first `=`, the code
/// byte what stands behind it, both without the white space around them.
pub open spec fn parse_line(line: Seq<char>) -> Line {
    let eq = find(line, '=');
    if eq == line.len() {
        Line::Ignored
    } else {
        match parse_hex_byte(trim(line.skip(eq + 1))) {
            Some(code) => Line::Entry(Entry { token: trim(line.take(eq)), code }),
            None => Line::Malformed,
        }
    }
}

/// What is left of `text` after its first line.
pub open spec fn after_first_line(text: Seq<char>) -> Seq<char> {
    let end = find(text, '\n');
    if end < text.len() {
        text.skip(end + 1)
    } else {
        Seq::empty()
    }
}

/// `entries` followed by `rest`, where there is a `rest`.
pub open spec fn followed_by(entries: Seq<Entry>, rest: Option<Seq<Entry>>) -> Option<Seq<Entry>> {
    match rest {
        Some(more) => Some(entries + more),
        None => None,
    }
}

/// The entries of a table text, in the order of its lines; `None` where a
/// line is malformed.
pub open spec fn table_entries(text: Seq<char>) -> Option<Seq<Entry>>
    decreases text.len(),
    via table_entries_decreases
{
    if text.len() == 0 {
        Some(Seq::empty())
    } else {
        match parse_line(text.take(find(text, '\n'))) {
            Line::Malformed => None,
            Line::Ignored => table_entries(after_first_line(text)),
            Line::Entry(entry) => followed_by(seq![entry], table_entries(after_first_line(text))),
        }
    }
}

#[via_fn]
proof fn table_entries_decreases(text: Seq<char>) {
    lemma_find(text, '\n');
}

/// Reads a table text into its entries.
pub fn parse_entries(text: &str) -> (r: Result<Vec<TableEntry>, CipherError>)
    ensures
        match table_entries(text@) {
            Some(entries) => r is Ok && entry_views(r->Ok_0@) == entries,
            None => r is Err && r->Err_0 == CipherError::Parse,
        },
{
    let chars = chars_of(text);
    let n = chars.len();
    let mut entries: Vec<TableEntry> = Vec::new();
    let mut pos: usize = 0;
    proof {
        assert(chars@.skip(0) == chars@);
    }
    while pos < n
        invariant
            n == chars@.len(),
            pos <= n,
            chars@ == text@,
            table_entries(text@) == followed_by(
                entry_views(entries@),
                table_entries(chars@.skip(pos as int)),
            ),
        decreases n - pos,
    {
        let ghost rest = chars@.skip(pos as int);
        let ghost before = entry_views(entries@);
        let end = find_in(chars.as_slice(), pos, n, '\n');
        let eq = find_in(chars.as_slice(), pos, end, '=');
        let next = if end < n { end + 1 } else { n };
        proof {
            assert(rest.take(end - pos) == chars@.subrange(pos as int, end as int));
            assert(after_first_line(rest) == chars@.skip(next as int));
        }
        let ghost line = chars@.subrange(pos as int, end as int);
        if eq < end {
            let value = trim_range(chars.as_slice(), eq + 1, end);
            proof {
                assert(line.skip(eq - pos + 1) == chars@.subrange(eq as int + 1, end as int));
                assert(line.take(eq - pos) == chars@.subrange(pos as int, eq as int));
            }
            match hex_byte(chars.as_slice(), value.0, value.1) {
                None => {
                    return Err(CipherError::Parse);
                },
                Some(code) => {
                    let name = trim_range(chars.as_slice(), pos, eq);
                    let token = string_of(chars.as_slice(), name.0, name.1);
                    let entry = TableEntry { token, code };
                    entries.push(entry);
                    proof {
                        let more = table_entries(chars@.skip(next as int));
                        if more is Some {
                            assert(before + (seq![entry@] + more->0) == before.push(entry@)
                                + more->0);
                        }
                    }
                },
            }
        }
        pos = next;
    }
    Ok(entries)
}

} // verus!
