//! Loading JSON data: the check that the raw bytes do not start with a
//! byte order mark, and the interner that lets equal strings of the parsed
//! value tree share one allocation.

use std::collections::HashMap;

use ecow::EcoString;
use rustc_hash::FxBuildHasher;
use vstd::prelude::*;

verus! {

/// Shared, cheaply cloned strings.
#[verifier::external_type_specification]
#[verifier::external_body]
pub struct ExEcoString(EcoString);

/// A table of interned strings, keyed by their text.
pub type InternMap = HashMap<Box<str>, EcoString, FxBuildHasher>;

/// The characters that an `EcoString` holds.
pub uninterp spec fn eco_chars(s: EcoString) -> Seq<char>;

/// What a table of interned strings holds: the characters of each key,
/// mapped to the characters of the shared string stored for it.
pub uninterp spec fn interned(m: InternMap) -> Map<Seq<char>, Seq<char>>;

/// `EcoString::from(&str)`: a new string holding the characters of `s`.
#[verifier::external_body]
fn eco_from_str(s: &str) -> (e: EcoString)
    ensures
        eco_chars(e) == s@,
{
    EcoString::from(s)
}

/// `EcoString::clone`: another handle on the same characters.
#[verifier::external_body]
fn eco_clone(e: &EcoString) -> (c: EcoString)
    ensures
        eco_chars(c) == eco_chars(*e),
{
    e.clone()
}

/// `HashMap::default` for a table of interned strings: an empty table.
#[verifier::external_body]
fn interned_new() -> (table: InternMap)
    ensures
        interned(table).dom() == Set::<Seq<char>>::empty(),
{
    HashMap::default()
}

/// `HashMap::get` by string on a table of interned strings: the string
/// stored for the characters of `s`, if any.
#[verifier::external_body]
fn interned_get<'a>(m: &'a InternMap, s: &str) -> (r: Option<&'a EcoString>)
    ensures
        r is Some <==> interned(*m).contains_key(s@),
        r matches Some(e) ==> eco_chars(*e) == interned(*m)[s@],
{
    m.get(s)
}

/// `HashMap::insert` with a boxed copy of `s` as the key: the characters of
/// `s` then map to those of `e`, and every other key is unchanged.
#[verifier::external_body]
fn interned_insert(m: &mut InternMap, s: &str, e: EcoString)
    ensures
        interned(*final(m)) == interned(*old(m)).insert(s@, eco_chars(e)),
{
    m.insert(Box::from(s), e);
}

/// Deduplicates equal strings met while deserializing, so that the value
/// tree shares one string per distinct text.
pub struct Interner {
    strings: InternMap,
}

impl Interner {
    /// The texts interned so far, each mapped to the text of its shared
    /// string.
    pub closed spec fn table(&self) -> Map<Seq<char>, Seq<char>> {
        interned(self.strings)
    }

    /// Every interned text is stored as a string with the same text.
    pub open spec fn wf(&self) -> bool {
        forall|k: Seq<char>| #[trigger] self.table().contains_key(k) ==> self.table()[k] == k
    }

    /// An interner that has seen no string.
    pub fn new() -> (i: Self)
        ensures
            i.wf(),
            i.table() == Map::<Seq<char>, Seq<char>>::empty(),
    {
        let i = Interner { strings: interned_new() };
        proof {
            assert(i.table() =~= Map::<Seq<char>, Seq<char>>::empty());
        }
        i
    }

    /// The shared string for the text of `s`: the one stored before, or a
    /// new one that is stored for later.
    pub fn intern(&mut self, s: &str) -> (r: EcoString)
        requires
            old(self).wf(),
        ensures
            final(self).wf(),
            eco_chars(r) == s@,
            final(self).table() == old(self).table().insert(s@, s@),
    {
        match interned_get(&self.strings, s) {
            Some(existing) => {
                let r = eco_clone(existing);
                proof {
                    assert(old(self).table().insert(s@, s@) =~= old(self).table());
                }
                r
            },
            None => {
                let value = eco_from_str(s);
                let stored = eco_clone(&value);
                interned_insert(&mut self.strings, s, stored);
                proof {
                    assert forall|k: Seq<char>| #[trigger]
                        self.table().contains_key(k) implies self.table()[k] == k by {
                        if k != s@ {
                            assert(old(self).table().contains_key(k));
                        }
                    }
                }
                value
            },
        }
    }
}

/// Whether raw data starts with the UTF-8 byte order mark.
pub open spec fn starts_with_bom(raw: Seq<u8>) -> bool {
    raw.len() >= 3 && raw[0] == 0xEF && raw[1] == 0xBB && raw[2] == 0xBF
}

/// Why JSON data was refused before parsing.
#[derive(Clone, Copy, Debug, PartialEq, Eq, Structural)]
pub enum JsonStartError {
    /// The data starts with a UTF-8 byte order mark.
    ByteOrderMark,
}

impl JsonStartError {
    /// The one-based line and column of the error.
    pub fn position(&self) -> (p: (usize, usize))
        ensures
            p == (1usize, 1usize),
    {
        (1, 1)
    }

    /// What failed.
    pub fn message(&self) -> (s: &'static str)
        ensures
            s@ == "failed to parse JSON"@,
    {
        "failed to parse JSON"
    }

    /// Why it failed.
    pub fn reason(&self) -> (s: &'static str)
        ensures
            s@ == "unexpected Byte Order Mark"@,
    {
        "unexpected Byte Order Mark"
    }

    /// How to fix it.
    pub fn hint(&self) -> (s: &'static str)
        ensures
            s@ == "JSON requires UTF-8 without a BOM"@,
    {
        "JSON requires UTF-8 without a BOM"
    }
}

/// Refuse JSON data that starts with a byte order mark.
pub fn check_json_start(raw: &[u8]) -> (r: Result<(), JsonStartError>)
    ensures
        r is Err <==> starts_with_bom(raw@),
        r matches Err(e) ==> e == JsonStartError::ByteOrderMark,
{
    if raw.len() >= 3 && raw[0] == 0xEF && raw[1] == 0xBB && raw[2] == 0xBF {
        Err(JsonStartError::ByteOrderMark)
    } else {
        Ok(())
    }
}

} // verus!
