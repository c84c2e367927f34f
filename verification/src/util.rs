//! Text helpers shared by the graph and the user interface.

use vstd::prelude::*;

verus! {

/// The ellipsis character appended to shortened labels.
pub open spec fn ellipsis() -> char {
    '\u{2026}'
}

/// The characters kept by `truncate_with_ellipsis` before the ellipsis.
pub open spec fn kept_prefix_len(max_chars: nat) -> nat {
    if max_chars == 0 { 0 } else { (max_chars - 1) as nat }
}

/// What `truncate_with_ellipsis` returns: the input itself when it has at
/// most `max_chars` characters, otherwise its first `max_chars - 1`
/// characters (none when `max_chars` is zero) followed by an ellipsis.
pub open spec fn truncated(input: Seq<char>, max_chars: nat) -> Seq<char> {
    if input.len() > max_chars {
        input.take(kept_prefix_len(max_chars) as int).push(ellipsis())
    } else {
        input
    }
}

/// Truncate a string to `max_chars` characters, appending an ellipsis if truncated.
/// Counts characters, not bytes, so multi-byte UTF-8 text is never split.
pub fn truncate_with_ellipsis(input: &str, max_chars: usize) -> (result: String)
    ensures
        result@ == truncated(input@, max_chars as nat),
        result@.len() <= input@.len(),
        input@.len() > max_chars ==> result@.len() == if max_chars == 0 { 1 } else { max_chars as int },
        input@.len() > max_chars ==> result@.last() == ellipsis(),
{
    let count = input.unicode_len();
    if count > max_chars {
        let keep: usize = if max_chars == 0 { 0 } else { max_chars - 1 };
        let mut result = String::from_str(input.substring_char(0, keep));
        let tail = "\u{2026}";
        proof {
            reveal_strlit("\u{2026}");
        }
        result.append(tail);
        assert(result@ =~= truncated(input@, max_chars as nat));
        result
    } else {
        String::from_str(input)
    }
}

} // verus!

verus! {

/// A copy of a list of strings.
pub fn copy_strings(v: &Vec<String>) -> (r: Vec<String>)
    ensures
        r@ == v@,
{
    let mut r: Vec<String> = Vec::new();
    let mut i: usize = 0;
    while i < v.len()
        invariant
            i <= v@.len(),
            r@ == v@.take(i as int),
        decreases v@.len() - i,
    {
        r.push(v[i].clone());
        i = i + 1;
        assert(r@ =~= v@.take(i as int));
    }
    assert(v@.take(v@.len() as int) =~= v@);
    r
}

/// A copy of a byte buffer.
pub fn copy_bytes(v: &Vec<u8>) -> (r: Vec<u8>)
    ensures
        r@ == v@,
{
    let mut r: Vec<u8> = Vec::new();
    let mut i: usize = 0;
    while i < v.len()
        invariant
            i <= v@.len(),
            r@ == v@.take(i as int),
        decreases v@.len() - i,
    {
        r.push(v[i]);
        i = i + 1;
        assert(r@ =~= v@.take(i as int));
    }
    assert(v@.take(v@.len() as int) =~= v@);
    r
}

/// The bytes of an optional buffer.
pub open spec fn opt_bytes_view(o: Option<Vec<u8>>) -> Option<Seq<u8>> {
    match o {
        Some(b) => Some(b@),
        None => None,
    }
}

/// A copy of an optional byte buffer.
pub fn copy_opt_bytes(v: &Option<Vec<u8>>) -> (r: Option<Vec<u8>>)
    ensures
        opt_bytes_view(r) == opt_bytes_view(*v),
{
    match v {
        Some(b) => Some(copy_bytes(b)),
        None => None,
    }
}

} // verus!
