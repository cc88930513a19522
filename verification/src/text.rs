//! Small verified string helpers: equality of string slices, decimal
//! rendering of integers and joining a list of strings with a separator.
use vstd::prelude::*;
use vstd::utf8::*;

verus! {

broadcast use encode_utf8_decode_utf8;

/// The UTF-8 bytes of a character sequence.
pub open spec fn bytes_of(s: Seq<char>) -> Seq<u8> {
    encode_utf8(s)
}

/// Two string slices are equal exactly when their characters are equal.
pub fn str_eq(a: &str, b: &str) -> (r: bool)
    ensures
        r == (a@ == b@),
{
    let ab = a.as_bytes();
    let bb = b.as_bytes();
    if ab.len() != bb.len() {
        assert(a@ != b@);
        return false;
    }
    let mut i: usize = 0;
    while i < ab.len()
        invariant
            ab@ == encode_utf8(a@),
            bb@ == encode_utf8(b@),
            ab@.len() == bb@.len(),
            i <= ab@.len(),
            forall|j: int| 0 <= j < i ==> ab@[j] == bb@[j],
        decreases ab.len() - i,
    {
        if ab[i] != bb[i] {
            assert(ab@ != bb@);
            return false;
        }
        i = i + 1;
    }
    assert(ab@ =~= bb@);
    assert(decode_utf8(encode_utf8(a@)) == a@);
    assert(decode_utf8(encode_utf8(b@)) == b@);
    true
}

/// The character of a decimal digit.
pub open spec fn digit_char(d: nat) -> char {
    ((48 + d) as u8) as char
}

/// The decimal rendering of a natural number, without leading zeros.
pub open spec fn decimal(n: nat) -> Seq<char>
    decreases n,
{
    if n < 10 {
        seq![digit_char(n)]
    } else {
        decimal(n / 10) + seq![digit_char(n % 10)]
    }
}

fn digit_str(d: u64) -> (r: &'static str)
    requires
        d < 10,
    ensures
        r@ == seq![digit_char(d as nat)],
{
    if d == 0 {
        proof { reveal_strlit("0"); }
        "0"
    } else if d == 1 {
        proof { reveal_strlit("1"); }
        "1"
    } else if d == 2 {
        proof { reveal_strlit("2"); }
        "2"
    } else if d == 3 {
        proof { reveal_strlit("3"); }
        "3"
    } else if d == 4 {
        proof { reveal_strlit("4"); }
        "4"
    } else if d == 5 {
        proof { reveal_strlit("5"); }
        "5"
    } else if d == 6 {
        proof { reveal_strlit("6"); }
        "6"
    } else if d == 7 {
        proof { reveal_strlit("7"); }
        "7"
    } else if d == 8 {
        proof { reveal_strlit("8"); }
        "8"
    } else {
        proof { reveal_strlit("9"); }
        "9"
    }
}

/// Renders an unsigned integer in decimal.
pub fn decimal_string(n: u64) -> (r: String)
    ensures
        r@ == decimal(n as nat),
    decreases n,
{
    if n < 10 {
        String::from_str(digit_str(n))
    } else {
        let mut s = decimal_string(n / 10);
        s.append(digit_str(n % 10));
        s
    }
}

/// The elements of `list` in order, with `sep` between each two of them.
pub open spec fn join(list: Seq<Seq<char>>, sep: Seq<char>) -> Seq<char>
    decreases list.len(),
{
    if list.len() == 0 {
        Seq::empty()
    } else if list.len() == 1 {
        list[0]
    } else {
        join(list.drop_last(), sep) + sep + list.last()
    }
}

/// The character sequences of a list of string slices.
pub open spec fn strs_view(v: Seq<&str>) -> Seq<Seq<char>> {
    v.map_values(|s: &str| s@)
}

/// Joins string slices with a separator.
pub fn join_strs(items: &Vec<&str>, sep: &str) -> (r: String)
    ensures
        r@ == join(strs_view(items@), sep@),
{
    let mut res = String::new();
    let mut i: usize = 0;
    while i < items.len()
        invariant
            i <= items@.len(),
            res@ == join(strs_view(items@).take(i as int), sep@),
        decreases items.len() - i,
    {
        let ghost prefix = strs_view(items@).take(i as int);
        assert(strs_view(items@).take(i + 1).drop_last() =~= prefix);
        if i != 0 {
            res.append(sep);
        }
        res.append(items[i]);
        i = i + 1;
    }
    assert(strs_view(items@).take(items@.len() as int) =~= strs_view(items@));
    res
}

/// Whether a string slice is one of the given strings.
pub fn strs_contain(items: &Vec<&str>, s: &str) -> (r: bool)
    ensures
        r == strs_view(items@).contains(s@),
{
    let mut i: usize = 0;
    while i < items.len()
        invariant
            i <= items@.len(),
            forall|j: int| 0 <= j < i ==> items@[j]@ != s@,
        decreases items.len() - i,
    {
        if str_eq(items[i], s) {
            assert(strs_view(items@)[i as int] == s@);
            return true;
        }
        i = i + 1;
    }
    assert(!strs_view(items@).contains(s@)) by {
        if strs_view(items@).contains(s@) {
            let k = choose|k: int| 0 <= k < strs_view(items@).len() && strs_view(items@)[k] == s@;
            assert(items@[k]@ == s@);
        }
    }
    false
}

/// The bytes of two joined character sequences are the bytes of each, joined.
pub proof fn lemma_bytes_of_concat(a: Seq<char>, b: Seq<char>)
    ensures
        bytes_of(a + b) == bytes_of(a) + bytes_of(b),
    decreases a.len(),
{
    if a.len() == 0 {
        assert(a + b =~= b);
        assert(bytes_of(a) =~= Seq::<u8>::empty());
        assert(bytes_of(a) + bytes_of(b) =~= bytes_of(b));
    } else {
        lemma_bytes_of_concat(a.drop_first(), b);
        assert((a + b).drop_first() =~= a.drop_first() + b);
        assert((a + b)[0] == a[0]);
        assert(bytes_of(a + b) =~= bytes_of(a) + bytes_of(b));
    }
}

/// The part of `s` between the byte offsets `start` and `end`, both of which
/// lie on ASCII bytes or at the end of `s`.
pub fn ascii_bounded_slice(s: &str, start: usize, end: usize) -> (r: &str)
    requires
        start <= end <= bytes_of(s@).len(),
        start == 0 || start == bytes_of(s@).len() || bytes_of(s@)[start as int] < 128,
        end == 0 || end == bytes_of(s@).len() || bytes_of(s@)[end as int] < 128,
    ensures
        bytes_of(r@) == bytes_of(s@).subrange(start as int, end as int),
        r@ == decode_utf8(bytes_of(s@).subrange(start as int, end as int)),
{
    let ghost bytes = bytes_of(s@);
    proof {
        encode_utf8_valid_utf8(s@);
        if 0 < start < bytes.len() {
            is_char_boundary_iff_not_is_continuation_byte(bytes, start as int);
        } else {
            is_char_boundary_start_end_of_seq(bytes);
        }
    }
    let (_, rest) = s.split_at(start);
    let ghost rb = bytes_of(rest@);
    proof {
        encode_utf8_valid_utf8(rest@);
        assert(rb =~= bytes.subrange(start as int, bytes.len() as int));
        if end == start {
            is_char_boundary_start_end_of_seq(rb);
        } else if end < bytes.len() {
            assert(rb[end - start] == bytes[end as int]);
            is_char_boundary_iff_not_is_continuation_byte(rb, end - start);
        } else {
            is_char_boundary_start_end_of_seq(rb);
        }
    }
    let (piece, _) = rest.split_at(end - start);
    proof {
        assert(bytes_of(piece@) =~= bytes.subrange(start as int, end as int));
    }
    piece
}

/// The character sequences of a list of strings.
pub open spec fn strings_view(v: Seq<String>) -> Seq<Seq<char>> {
    v.map_values(|s: String| s@)
}

/// Joins strings with a separator.
pub fn join_strings(items: &Vec<String>, sep: &str) -> (r: String)
    ensures
        r@ == join(strings_view(items@), sep@),
{
    let mut res = String::new();
    let mut i: usize = 0;
    while i < items.len()
        invariant
            i <= items@.len(),
            res@ == join(strings_view(items@).take(i as int), sep@),
        decreases items.len() - i,
    {
        let ghost prefix = strings_view(items@).take(i as int);
        assert(strings_view(items@).take(i + 1).drop_last() =~= prefix);
        if i != 0 {
            res.append(sep);
        }
        res.append(items[i].as_str());
        i = i + 1;
    }
    assert(strings_view(items@).take(items@.len() as int) =~= strings_view(items@));
    res
}

} // verus!
