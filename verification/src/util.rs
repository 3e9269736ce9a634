//! The lexical rules for PostgreSQL identifiers: which strings may stand
//! bare, and the byte-length bound that forces quoting.

use vstd::prelude::*;
use vstd::utf8::{encode_scalar, encode_utf8};

verus! {

/// What `char::is_lowercase` returns for the character.
pub uninterp spec fn lower_char(c: char) -> bool;

/// What `char::is_numeric` returns for the character.
pub uninterp spec fn numeric_char(c: char) -> bool;

/// Relies on `char::is_lowercase`: the Unicode lower-case predicate,
/// a function of the character alone.
pub assume_specification[ char::is_lowercase ](c: char) -> (r: bool)
    ensures
        r == lower_char(c),
;

/// Relies on `char::is_numeric`: the Unicode numeric predicate,
/// a function of the character alone.
pub assume_specification[ char::is_numeric ](c: char) -> (r: bool)
    ensures
        r == numeric_char(c),
;

/// A character that may open a bare identifier: a lower-case letter
/// or an underscore.
pub open spec fn head_char_ok(c: char) -> bool {
    lower_char(c) || c == '_'
}

/// A character that may continue a bare identifier: a lower-case letter,
/// a numeric character, an underscore, or a dollar sign.
pub open spec fn tail_char_ok(c: char) -> bool {
    lower_char(c) || numeric_char(c) || c == '_' || c == '$'
}

/// The byte length of the UTF-8 encoding of the text.
pub open spec fn byte_len(s: Seq<char>) -> nat {
    encode_utf8(s).len()
}

/// A string that may stand as a bare identifier: 1 to 63 bytes, opening
/// with a lower-case letter or underscore, continuing with lower-case
/// letters, numeric characters, underscores, or dollar signs.
pub open spec fn ident_compatible(s: Seq<char>) -> bool {
    &&& 1 <= byte_len(s) <= 63
    &&& s.len() > 0
    &&& head_char_ok(s[0])
    &&& forall|i: int| 1 <= i < s.len() ==> tail_char_ok(#[trigger] s[i])
}

/// UTF-8 encodes a concatenation piecewise.
proof fn lemma_encode_utf8_append(a: Seq<char>, b: Seq<char>)
    ensures
        encode_utf8(a + b) == encode_utf8(a) + encode_utf8(b),
    decreases a.len(),
{
    if a.len() == 0 {
        assert(a + b =~= b);
        assert(encode_utf8(a) + encode_utf8(b) =~= encode_utf8(b));
    } else {
        assert((a + b).drop_first() =~= a.drop_first() + b);
        lemma_encode_utf8_append(a.drop_first(), b);
        assert(encode_utf8(a + b) =~= encode_utf8(a) + encode_utf8(b));
    }
}

/// Extending the text by one character extends its encoding by that
/// character's encoding.
proof fn lemma_encode_utf8_push(a: Seq<char>, c: char)
    ensures
        encode_utf8(a.push(c)) == encode_utf8(a) + encode_scalar(c as u32),
{
    let unit = seq![c];
    lemma_encode_utf8_append(a, unit);
    assert(a.push(c) =~= a + unit);
    assert(encode_utf8(unit) == encode_scalar(unit[0] as u32) + encode_utf8(unit.drop_first()));
    assert(unit.drop_first() =~= Seq::<char>::empty());
    assert(encode_utf8(unit.drop_first()).len() == 0);
    assert(encode_utf8(unit) =~= encode_scalar(c as u32));
}

/// A prefix of the text encodes to no more bytes than the whole.
proof fn lemma_encode_utf8_prefix_le(s: Seq<char>, k: int)
    requires
        0 <= k <= s.len(),
    ensures
        byte_len(s.take(k)) <= byte_len(s),
{
    assert(s =~= s.take(k) + s.skip(k));
    lemma_encode_utf8_append(s.take(k), s.skip(k));
}

/// How many bytes the character occupies in UTF-8.
fn char_utf8_len(c: char) -> (r: usize)
    ensures
        r == encode_scalar(c as u32).len(),
        1 <= r <= 4,
{
    let u = c as u32;
    if u < 0x80 {
        1
    } else if u < 0x800 {
        2
    } else if u < 0x10000 {
        3
    } else {
        4
    }
}

/// The byte length of the text, saturated at 64: the classifier only asks
/// whether the length stays within 63.
fn byte_len_capped(s: &str) -> (r: usize)
    ensures
        r <= 64,
        r <= 63 ==> r == byte_len(s@),
        r == 64 ==> byte_len(s@) > 63,
{
    let n = s.unicode_len();
    let mut total: usize = 0;
    let mut i: usize = 0;
    while i < n
        invariant
            i <= n,
            n == s@.len(),
            total <= 63,
            total == byte_len(s@.take(i as int)),
        decreases n - i,
    {
        let c = s.get_char(i);
        let l = char_utf8_len(c);
        proof {
            lemma_encode_utf8_push(s@.take(i as int), s@[i as int]);
            assert(s@.take(i + 1) =~= s@.take(i as int).push(s@[i as int]));
        }
        if total + l > 63 {
            proof {
                lemma_encode_utf8_prefix_le(s@, i + 1);
            }
            return 64;
        }
        total = total + l;
        i = i + 1;
    }
    proof {
        assert(s@.take(n as int) =~= s@);
    }
    total
}

/// Whether the string may stand as a bare identifier without quoting.
pub fn is_ident_compatible(id: &str) -> (r: bool)
    ensures
        r == ident_compatible(id@),
{
    let blen = byte_len_capped(id);
    if blen > 63 || blen == 0 {
        return false;
    }
    let n = id.unicode_len();
    proof {
        if id@.len() == 0 {
            assert(encode_utf8(id@).len() == 0);
        }
    }
    let first = id.get_char(0);
    if !(first.is_lowercase() || first == '_') {
        return false;
    }
    let mut i: usize = 1;
    while i < n
        invariant
            1 <= i <= n,
            n == id@.len(),
            forall|j: int| 1 <= j < i ==> tail_char_ok(#[trigger] id@[j]),
        decreases n - i,
    {
        let c = id.get_char(i);
        if !(c.is_lowercase() || c.is_numeric() || c == '_' || c == '$') {
            return false;
        }
        i = i + 1;
    }
    true
}

} // verus!
