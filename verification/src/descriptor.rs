//! Descriptors consumed by the assembler, and the small name utilities
//! that read them: the display name derived from a namespaced tag, the
//! short name of a type path, and the source-type to TypeScript-type table.

use vstd::prelude::*;
use vstd::string::StrSliceExecFns;
use vstd::string::StringExecFns;
use crate::text::last_char_before;

verus! {

/// A contract descriptor: the namespaced tag, e.g. `"namespace-ActionsName"`.
pub struct DojoContract {
    pub tag: String,
}

/// A function descriptor: the source (snake_case) name and the ordered
/// `(parameter name, source type path)` pairs of its inputs.
pub struct Function {
    pub name: String,
    pub inputs: Vec<(String, String)>,
}

/// The display name of a tag: the text after its last `'-'`
/// (the whole tag when it has none).
pub open spec fn display_name(tag: Seq<char>) -> Seq<char> {
    tag.skip(last_char_before(tag, '-', tag.len() as int) + 1)
}

/// Start of the suffix of `s` that follows the last `'-'` below `i`.
fn suffix_after_dash(s: &str, i: usize) -> (r: usize)
    requires
        i <= s@.len(),
    ensures
        r as int == last_char_before(s@, '-', i as int) + 1,
        r <= i,
    decreases i,
{
    if i == 0 {
        0
    } else if s.get_char(i - 1) == '-' {
        i
    } else {
        suffix_after_dash(s, i - 1)
    }
}

/// The display name of a namespaced contract tag.
pub fn get_name_from_tag(tag: &str) -> (r: String)
    ensures
        r@ == display_name(tag@),
{
    let n = tag.unicode_len();
    let start = suffix_after_dash(tag, n);
    let sub = tag.substring_char(start, n);
    proof {
        assert(sub@ =~= display_name(tag@));
    }
    String::from_str(sub)
}

/// Start of the text of `s` that follows the last `"::"` ending below `i`.
pub open spec fn seg_start_from(s: Seq<char>, i: int) -> int
    decreases i,
{
    if i < 2 {
        0
    } else if s[i - 2] == ':' && s[i - 1] == ':' {
        i
    } else {
        seg_start_from(s, i - 1)
    }
}

/// The short name of a type path: the text after its last `"::"`
/// (the whole path when it has none).
pub open spec fn short_type_name(path: Seq<char>) -> Seq<char> {
    path.skip(seg_start_from(path, path.len() as int))
}

/// Start of the short name within a type path.
fn type_seg_start(s: &str, i: usize) -> (r: usize)
    requires
        i <= s@.len(),
    ensures
        r as int == seg_start_from(s@, i as int),
        r <= i,
    decreases i,
{
    if i < 2 {
        0
    } else if s.get_char(i - 2) == ':' && s.get_char(i - 1) == ':' {
        i
    } else {
        type_seg_start(s, i - 1)
    }
}

/// The short name of a source type path.
pub fn short_name(path: &str) -> (r: String)
    ensures
        r@ == short_type_name(path@),
{
    let n = path.unicode_len();
    let start = type_seg_start(path, n);
    let sub = path.substring_char(start, n);
    proof {
        assert(sub@ =~= short_type_name(path@));
    }
    String::from_str(sub)
}

/// Are two strings equal, character for character?
pub fn str_eq(a: &str, b: &str) -> (r: bool)
    ensures
        r == (a@ == b@),
{
    let alen = a.unicode_len();
    let blen = b.unicode_len();
    if alen != blen {
        return false;
    }
    let mut i: usize = 0;
    while i < alen
        invariant
            alen == a@.len(),
            alen == b@.len(),
            0 <= i <= alen,
            forall|k: int| 0 <= k < i ==> a@[k] == b@[k],
        decreases alen - i,
    {
        if a.get_char(i) != b.get_char(i) {
            return false;
        }
        i += 1;
    }
    proof {
        assert(a@ =~= b@);
    }
    true
}

/// The TypeScript type that stands for a short source type name.
/// Unrecognized names fall back to the sentinel `"any"`.
pub open spec fn js_type_text(tag: Seq<char>) -> Seq<char> {
    if tag == "bool"@ {
        "boolean"@
    } else if tag == "u8"@ || tag == "u16"@ || tag == "u32"@ || tag == "usize"@ {
        "number"@
    } else if tag == "u64"@ || tag == "u128"@ || tag == "u256"@ {
        "bigint"@
    } else if tag == "felt252"@ || tag == "bytes31"@ || tag == "ClassHash"@
        || tag == "ContractAddress"@ {
        "string"@
    } else {
        "any"@
    }
}

/// The TypeScript type that stands for a short source type name.
pub fn js_type(tag: &str) -> (r: String)
    ensures
        r@ == js_type_text(tag@),
{
    if str_eq(tag, "bool") {
        String::from_str("boolean")
    } else if str_eq(tag, "u8") || str_eq(tag, "u16") || str_eq(tag, "u32") || str_eq(
        tag,
        "usize",
    ) {
        String::from_str("number")
    } else if str_eq(tag, "u64") || str_eq(tag, "u128") || str_eq(tag, "u256") {
        String::from_str("bigint")
    } else if str_eq(tag, "felt252") || str_eq(tag, "bytes31") || str_eq(tag, "ClassHash")
        || str_eq(tag, "ContractAddress") {
        String::from_str("string")
    } else {
        String::from_str("any")
    }
}

} // verus!
