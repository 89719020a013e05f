//! Small text helpers the room protocol needs: decimal rendering of counts,
//! ASCII trimming, and a lexicographic order for name lists.
use vstd::prelude::*;

verus! {

use vstd::string::{StrSliceExecFns, StringExecFns};
use vstd::utf8::{encode_utf8, decode_utf8};

/// The decimal digit for a value below ten.
pub open spec fn dec_digit_char(d: nat) -> char {
    if d == 0 {
        '0'
    } else if d == 1 {
        '1'
    } else if d == 2 {
        '2'
    } else if d == 3 {
        '3'
    } else if d == 4 {
        '4'
    } else if d == 5 {
        '5'
    } else if d == 6 {
        '6'
    } else if d == 7 {
        '7'
    } else if d == 8 {
        '8'
    } else {
        '9'
    }
}

/// The decimal spelling of a number, most significant digit first.
pub open spec fn dec_str(n: nat) -> Seq<char>
    decreases n,
{
    if n < 10 {
        seq![dec_digit_char(n)]
    } else {
        dec_str(n / 10) + seq![dec_digit_char(n % 10)]
    }
}

/// The one-character text for a digit.
fn digit_str(d: u64) -> (r: &'static str)
    requires
        d < 10,
    ensures
        r@ == seq![dec_digit_char(d as nat)],
{
    let r: &'static str = match d {
        0 => "0",
        1 => "1",
        2 => "2",
        3 => "3",
        4 => "4",
        5 => "5",
        6 => "6",
        7 => "7",
        8 => "8",
        _ => "9",
    };
    proof {
        reveal_strlit("0");
        reveal_strlit("1");
        reveal_strlit("2");
        reveal_strlit("3");
        reveal_strlit("4");
        reveal_strlit("5");
        reveal_strlit("6");
        reveal_strlit("7");
        reveal_strlit("8");
        reveal_strlit("9");
        assert(r@ =~= seq![dec_digit_char(d as nat)]);
    }
    r
}

/// Renders a number in decimal.
pub fn u64_to_string(n: u64) -> (r: String)
    ensures
        r@ == dec_str(n as nat),
    decreases n,
{
    if n < 10 {
        String::from_str(digit_str(n))
    } else {
        let mut s = u64_to_string(n / 10);
        s.append(digit_str(n % 10));
        s
    }
}

/// Whether `c` is ASCII whitespace.
pub open spec fn is_ascii_ws(c: char) -> bool {
    c == ' ' || c == '\t' || c == '\n' || c == '\r'
}

/// `s` without leading and trailing ASCII whitespace: the longest inner run
/// whose first and last characters are not whitespace.
pub open spec fn trimmed(s: Seq<char>) -> Seq<char>
    decreases s.len(),
{
    if s.len() == 0 {
        s
    } else if is_ascii_ws(s.first()) {
        trimmed(s.drop_first())
    } else if is_ascii_ws(s.last()) {
        trimmed(s.drop_last())
    } else {
        s
    }
}

/// Whether `c` is ASCII whitespace.
pub fn char_is_ws(c: char) -> (r: bool)
    ensures
        r == is_ascii_ws(c),
{
    c == ' ' || c == '\t' || c == '\n' || c == '\r'
}

/// Strips leading and trailing ASCII whitespace.
pub fn trim_string(s: &String) -> (r: String)
    ensures
        r@ == trimmed(s@),
{
    let sl = s.as_str();
    let n = sl.unicode_len();
    let mut lo: usize = 0;
    let mut hi: usize = n;
    proof {
        assert(s@.subrange(0, s@.len() as int) =~= s@);
    }
    while lo < hi && char_is_ws(sl.get_char(lo))
        invariant
            0 <= lo <= hi <= s@.len(),
            sl@ == s@,
            trimmed(s@) == trimmed(s@.subrange(lo as int, hi as int)),
            hi == s@.len(),
        decreases hi - lo,
    {
        proof {
            assert(s@.subrange(lo as int, hi as int).drop_first() =~= s@.subrange(
                lo + 1,
                hi as int,
            ));
        }
        lo = lo + 1;
    }
    while lo < hi && char_is_ws(sl.get_char(hi - 1))
        invariant
            0 <= lo <= hi <= s@.len(),
            sl@ == s@,
            trimmed(s@) == trimmed(s@.subrange(lo as int, hi as int)),
            lo < hi ==> !is_ascii_ws(s@[lo as int]),
        decreases hi - lo,
    {
        proof {
            assert(s@.subrange(lo as int, hi as int).drop_last() =~= s@.subrange(
                lo as int,
                hi - 1,
            ));
        }
        hi = hi - 1;
    }
    let r = sl.substring_char(lo, hi);
    proof {
        if lo < hi {
            assert(trimmed(s@.subrange(lo as int, hi as int)) == s@.subrange(
                lo as int,
                hi as int,
            ));
        } else {
            assert(s@.subrange(lo as int, hi as int) =~= Seq::<char>::empty());
        }
    }
    r.to_owned()
}

/// Lexicographic order on byte runs.
pub open spec fn lex_le(a: Seq<u8>, b: Seq<u8>) -> bool
    decreases a.len(),
{
    if a.len() == 0 {
        true
    } else if b.len() == 0 {
        false
    } else if a.first() < b.first() {
        true
    } else if a.first() > b.first() {
        false
    } else {
        lex_le(a.drop_first(), b.drop_first())
    }
}

/// A shared prefix does not decide the order.
proof fn lemma_lex_common_prefix(a: Seq<u8>, b: Seq<u8>, i: int)
    requires
        0 <= i <= a.len(),
        i <= b.len(),
        forall|j: int| 0 <= j < i ==> a[j] == b[j],
    ensures
        lex_le(a, b) == lex_le(a.skip(i), b.skip(i)),
    decreases i,
{
    if i > 0 {
        assert(a.skip(0) =~= a);
        assert(a[0] == b[0]);
        assert(lex_le(a, b) == lex_le(a.drop_first(), b.drop_first()));
        assert(a.drop_first() =~= a.skip(1));
        assert(b.drop_first() =~= b.skip(1));
        lemma_lex_common_prefix(a.skip(1), b.skip(1), i - 1);
        assert(a.skip(1).skip(i - 1) =~= a.skip(i));
        assert(b.skip(1).skip(i - 1) =~= b.skip(i));
    } else {
        assert(a.skip(0) =~= a);
        assert(b.skip(0) =~= b);
    }
}

/// The order is total: two runs can always be compared.
pub proof fn lemma_lex_total(a: Seq<u8>, b: Seq<u8>)
    ensures
        lex_le(a, b) || lex_le(b, a),
        lex_le(a, b) && lex_le(b, a) ==> a == b,
    decreases a.len(),
{
    if a.len() == 0 {
        if lex_le(b, a) {
            assert(b.len() == 0);
            assert(a =~= b);
        }
    } else if b.len() == 0 {
    } else if a.first() == b.first() {
        lemma_lex_total(a.drop_first(), b.drop_first());
        if lex_le(a, b) && lex_le(b, a) {
            assert(a =~= seq![a.first()] + a.drop_first());
            assert(b =~= seq![b.first()] + b.drop_first());
        }
    }
}

/// The order carries over chains.
pub proof fn lemma_lex_trans(a: Seq<u8>, b: Seq<u8>, c: Seq<u8>)
    requires
        lex_le(a, b),
        lex_le(b, c),
    ensures
        lex_le(a, c),
    decreases a.len(),
{
    if a.len() > 0 && b.len() > 0 && c.len() > 0 {
        if a.first() == b.first() && b.first() == c.first() {
            lemma_lex_trans(a.drop_first(), b.drop_first(), c.drop_first());
        }
    }
}

/// Compares two byte vectors lexicographically.
pub fn bytes_le(a: &Vec<u8>, b: &Vec<u8>) -> (r: bool)
    ensures
        r == lex_le(a@, b@),
{
    let n = if a.len() < b.len() {
        a.len()
    } else {
        b.len()
    };
    let mut i: usize = 0;
    while i < n
        invariant
            0 <= i <= n,
            n == if a@.len() < b@.len() {
                a@.len()
            } else {
                b@.len()
            },
            forall|j: int| 0 <= j < i ==> a@[j] == b@[j],
        decreases n - i,
    {
        if a[i] < b[i] {
            proof {
                lemma_lex_common_prefix(a@, b@, i as int);
                assert(a@.skip(i as int).first() < b@.skip(i as int).first());
            }
            return true;
        }
        if a[i] > b[i] {
            proof {
                lemma_lex_common_prefix(a@, b@, i as int);
                assert(a@.skip(i as int).first() > b@.skip(i as int).first());
            }
            return false;
        }
        i = i + 1;
    }
    proof {
        lemma_lex_common_prefix(a@, b@, n as int);
        if a@.len() <= b@.len() {
            assert(a@.skip(n as int) =~= Seq::<u8>::empty());
        } else {
            assert(b@.skip(n as int) =~= Seq::<u8>::empty());
            assert(a@.skip(n as int).len() > 0);
        }
    }
    a.len() <= b.len()
}

/// The views of a list of strings, in order.
pub open spec fn views_of_strings(s: Seq<String>) -> Seq<Seq<char>> {
    s.map_values(|x: String| x@)
}

/// Copies a list of strings.
pub fn duplicate_strings(v: &Vec<String>) -> (r: Vec<String>)
    ensures
        views_of_strings(r@) == views_of_strings(v@),
{
    let mut r: Vec<String> = Vec::new();
    let mut i: usize = 0;
    while i < v.len()
        invariant
            i <= v@.len(),
            views_of_strings(r@) == views_of_strings(v@).take(i as int),
        decreases v@.len() - i,
    {
        let ghost prior = views_of_strings(r@);
        let copy = v[i].clone();
        proof {
            assert(copy@ == views_of_strings(v@)[i as int]);
        }
        r.push(copy);
        proof {
            assert(views_of_strings(r@) =~= prior.push(copy@));
            assert(views_of_strings(v@).take(i + 1) =~= views_of_strings(v@).take(i as int).push(
                views_of_strings(v@)[i as int],
            ));
        }
        i = i + 1;
    }
    proof {
        assert(views_of_strings(v@).take(v@.len() as int) =~= views_of_strings(v@));
    }
    r
}

/// The order used for display-name lists: lexicographic on the names'
/// UTF-8 bytes.
pub open spec fn name_le(a: Seq<char>, b: Seq<char>) -> bool {
    lex_le(encode_utf8(a), encode_utf8(b))
}

/// The display order is total, and two names that compare equal both ways
/// read the same.
pub proof fn lemma_name_total(a: Seq<char>, b: Seq<char>)
    ensures
        name_le(a, b) || name_le(b, a),
        name_le(a, b) && name_le(b, a) ==> a == b,
{
    broadcast use vstd::utf8::encode_utf8_decode_utf8;

    lemma_lex_total(encode_utf8(a), encode_utf8(b));
    if name_le(a, b) && name_le(b, a) {
        assert(decode_utf8(encode_utf8(a)) == decode_utf8(encode_utf8(b)));
    }
}

/// The display order carries over chains.
pub proof fn lemma_name_trans(a: Seq<char>, b: Seq<char>, c: Seq<char>)
    requires
        name_le(a, b),
        name_le(b, c),
    ensures
        name_le(a, c),
{
    lemma_lex_trans(encode_utf8(a), encode_utf8(b), encode_utf8(c));
}

/// Compares two names in display order.
pub fn string_le(a: &String, b: &String) -> (r: bool)
    ensures
        r == name_le(a@, b@),
{
    let av = a.as_str().as_bytes_vec();
    let bv = b.as_str().as_bytes_vec();
    bytes_le(&av, &bv)
}

} // verus!
