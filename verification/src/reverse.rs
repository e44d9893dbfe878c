//! The reverse table, used to decrypt: from code byte to operation token.
//! Where several tokens share a code byte, one of them is chosen: the `+`
//! token of least magnitude, the first of them where two have the same; or,
//! where no `+` token has that code byte, the first token that has it.

use std::collections::HashMap;
use vstd::prelude::*;
use crate::error::CipherError;
use crate::table::{entry_views, parse_entries, table_entries, Entry, TableEntry};
use crate::text::{chars_of, hex_byte};
use crate::token::{is_plus, token_magnitude};

verus! {

broadcast use vstd::std_specs::hash::group_hash_axioms;

/// The rank of a `+` token among those of one code byte: its magnitude. A
/// token whose magnitude is malformed ranks behind every other.
pub open spec fn plus_rank(token: Seq<char>) -> int {
    match token_magnitude(token) {
        Some(magnitude) => magnitude as int,
        None => 256,
    }
}

/// The token that a code byte has once `token` is read for it, where it had
/// `current` before: a `+` token displaces a token that is not one, and a
/// `+` token of greater magnitude; nothing else displaces anything.
pub open spec fn prefer(current: Option<Seq<char>>, token: Seq<char>) -> Option<Seq<char>> {
    match current {
        None => Some(token),
        Some(held) => if is_plus(token) && (!is_plus(held) || plus_rank(token) < plus_rank(held)) {
            Some(token)
        } else {
            current
        },
    }
}

/// The token chosen for `code` among `entries`, read in order.
pub open spec fn resolve(entries: Seq<Entry>, code: u8) -> Option<Seq<char>>
    decreases entries.len(),
{
    if entries.len() == 0 {
        None
    } else if entries.last().code == code {
        prefer(resolve(entries.drop_last(), code), entries.last().token)
    } else {
        resolve(entries.drop_last(), code)
    }
}

/// The reverse mapping of a sequence of entries.
pub open spec fn reverse_of(entries: Seq<Entry>) -> Map<u8, Seq<char>> {
    Map::new(|code: u8| resolve(entries, code) is Some, |code: u8| resolve(entries, code)->0)
}

/// Whether every `+` token among `entries` has a well-formed magnitude.
pub open spec fn plus_tokens_well_formed(entries: Seq<Entry>) -> bool {
    forall|i: int|
        0 <= i < entries.len() && is_plus((#[trigger] entries[i]).token) ==> token_magnitude(
            entries[i].token,
        ) is Some
}

/// The token chosen for a code byte is that of one of its entries, and a
/// code byte with an entry has a token.
pub proof fn lemma_resolve_is_entry(entries: Seq<Entry>, code: u8)
    ensures
        resolve(entries, code) is Some <==> exists|i: int|
            0 <= i < entries.len() && (#[trigger] entries[i]).code == code,
        resolve(entries, code) is Some ==> exists|i: int|
            0 <= i < entries.len() && (#[trigger] entries[i]).code == code && entries[i].token
                == resolve(entries, code)->0,
    decreases entries.len(),
{
    if entries.len() > 0 {
        let earlier = entries.drop_last();
        let last = entries.len() - 1;
        lemma_resolve_is_entry(earlier, code);
        if resolve(earlier, code) is Some {
            let i = choose|i: int|
                0 <= i < earlier.len() && (#[trigger] earlier[i]).code == code && earlier[i].token
                    == resolve(earlier, code)->0;
        }
        if entries[last].code == code {
        } else {
            if resolve(earlier, code) is None {
                assert forall|i: int| 0 <= i < entries.len() implies (#[trigger] entries[i]).code
                    != code by {
                    if i < last {
                        assert(earlier[i].code != code);
                    }
                }
            }
        }
    }
}

/// Precedence among `+` tokens: the `+` entry of a code byte that ranks
/// before every other `+` entry of it, by magnitude and then by position,
/// gives the code byte its token, whatever other entries there are.
pub proof fn lemma_reverse_plus_wins(entries: Seq<Entry>, i: int)
    requires
        0 <= i < entries.len(),
        is_plus(entries[i].token),
        forall|j: int|
            0 <= j < entries.len() && (#[trigger] entries[j]).code == entries[i].code && is_plus(
                entries[j].token,
            ) ==> plus_rank(entries[i].token) < plus_rank(entries[j].token) || (plus_rank(
                entries[i].token,
            ) == plus_rank(entries[j].token) && i <= j),
    ensures
        reverse_of(entries).contains_key(entries[i].code),
        reverse_of(entries)[entries[i].code] == entries[i].token,
    decreases entries.len(),
{
    let code = entries[i].code;
    let earlier = entries.drop_last();
    let last = entries.len() - 1;
    if i == last {
        lemma_resolve_is_entry(earlier, code);
        if resolve(earlier, code) is Some {
            let j = choose|j: int|
                0 <= j < earlier.len() && (#[trigger] earlier[j]).code == code && earlier[j].token
                    == resolve(earlier, code)->0;
            assert(entries[j].code == code);
        }
    } else {
        lemma_reverse_plus_wins(earlier, i);
    }
}

/// First seen wins where no `+` token is at hand: the first entry of a code
/// byte none of whose entries is a `+` token gives the code byte its token.
pub proof fn lemma_reverse_first_wins(entries: Seq<Entry>, i: int)
    requires
        0 <= i < entries.len(),
        forall|j: int|
            0 <= j < entries.len() && (#[trigger] entries[j]).code == entries[i].code ==> i <= j
                && !is_plus(entries[j].token),
    ensures
        reverse_of(entries).contains_key(entries[i].code),
        reverse_of(entries)[entries[i].code] == entries[i].token,
    decreases entries.len(),
{
    let code = entries[i].code;
    let earlier = entries.drop_last();
    let last = entries.len() - 1;
    if i == last {
        lemma_resolve_is_entry(earlier, code);
        if resolve(earlier, code) is Some {
            let j = choose|j: int| 0 <= j < earlier.len() && (#[trigger] earlier[j]).code == code;
            assert(entries[j].code == code);
        }
    } else {
        lemma_reverse_first_wins(earlier, i);
    }
}

/// The tokens of a reverse table, each as the characters it is made of.
pub open spec fn token_texts(tokens: Map<u8, String>) -> Map<u8, Seq<char>> {
    Map::new(|code: u8| tokens.contains_key(code), |code: u8| tokens[code]@)
}

/// The token that `table` holds for `code`, where it holds one.
pub(crate) fn held_token(table: &HashMap<u8, String>, code: u8) -> (token: Option<&String>)
    ensures
        match token {
            Some(text) => token_texts(table@).contains_key(code) && text@ == token_texts(
                table@,
            )[code],
            None => !token_texts(table@).contains_key(code),
        },
{
    table.get(&code)
}

/// Gives `code` the token `token`, in place of any it had.
fn hold_token(table: &mut HashMap<u8, String>, code: u8, token: String)
    ensures
        token_texts(final(table)@) == token_texts(old(table)@).insert(code, token@),
{
    table.insert(code, token);
}

/// The reverse table of `entries`, taken in order. It fails, with a parse
/// error, exactly where a `+` token has a malformed magnitude.
pub fn reverse_from_entries(entries: &Vec<TableEntry>) -> (r: Result<
    HashMap<u8, String>,
    CipherError,
>)
    ensures
        plus_tokens_well_formed(entry_views(entries@)) ==> r is Ok && token_texts(r->Ok_0@)
            == reverse_of(entry_views(entries@)),
        !plus_tokens_well_formed(entry_views(entries@)) ==> r is Err && r->Err_0
            == CipherError::Parse,
{
    let ghost views = entry_views(entries@);
    let mut table: HashMap<u8, String> = HashMap::new();
    let mut i: usize = 0;
    while i < entries.len()
        invariant
            i <= entries@.len(),
            views == entry_views(entries@),
            token_texts(table@) == reverse_of(views.take(i as int)),
            plus_tokens_well_formed(views.take(i as int)),
        decreases entries@.len() - i,
    {
        let code = entries[i].code;
        let token = &entries[i].token;
        let ghost before = views.take(i as int);
        let ghost upto = views.take(i as int + 1);
        proof {
            assert(upto.drop_last() == before);
        }
        let chars = chars_of(token.as_str());
        let plus = chars.len() > 0 && chars[0] == '+';
        let displaces = if plus {
            match hex_byte(chars.as_slice(), 1, chars.len()) {
                None => {
                    assert(!plus_tokens_well_formed(views)) by {
                        assert(is_plus(views[i as int].token));
                    }
                    return Err(CipherError::Parse);
                },
                Some(magnitude) => match held_token(&table, code) {
                    None => true,
                    Some(held) => {
                        let held_chars = chars_of(held.as_str());
                        if held_chars.len() > 0 && held_chars[0] == '+' {
                            assert(held_chars@.skip(1) == held_chars@.subrange(
                                1,
                                held_chars@.len() as int,
                            ));
                            match hex_byte(held_chars.as_slice(), 1, held_chars.len()) {
                                Some(held_magnitude) => magnitude < held_magnitude,
                                None => true,
                            }
                        } else {
                            true
                        }
                    },
                },
            }
        } else {
            held_token(&table, code).is_none()
        };
        assert(prefer(resolve(before, code), token@) == if displaces {
            Some(token@)
        } else {
            resolve(before, code)
        });
        if displaces {
            hold_token(&mut table, code, token.clone());
        }
        proof {
            assert(token_texts(table@) =~= reverse_of(upto)) by {
                assert forall|c: u8| resolve(upto, c) == if c == code {
                    prefer(resolve(before, c), token@)
                } else {
                    resolve(before, c)
                } by {}
            }
            assert forall|j: int| 0 <= j < upto.len() && is_plus((#[trigger] upto[j]).token)
                implies token_magnitude(upto[j].token) is Some by {
                if j < i {
                    assert(before[j] == upto[j]);
                }
            }
        }
        i += 1;
    }
    assert(views.take(i as int) == views);
    Ok(table)
}

/// Reads the reverse table from the text of a conversion table. It fails,
/// with a parse error, exactly where a line of the text is malformed or a
/// `+` token has a malformed magnitude.
pub fn parse_reverse_table(text: &str) -> (r: Result<HashMap<u8, String>, CipherError>)
    ensures
        match table_entries(text@) {
            Some(entries) if plus_tokens_well_formed(entries) => r is Ok && token_texts(r->Ok_0@)
                == reverse_of(entries),
            _ => r is Err && r->Err_0 == CipherError::Parse,
        },
{
    match parse_entries(text) {
        Ok(entries) => reverse_from_entries(&entries),
        Err(e) => Err(e),
    }
}

} // verus!
