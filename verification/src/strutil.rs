//! Small trusted shims over `std` string operations that vstd does not
//! specify, plus verified helpers built on top of them.

use vstd::prelude::*;

verus! {

/// Relies on `str`'s `PartialEq`: two string slices are equal exactly when
/// their character sequences are equal.
#[verifier::external_body]
pub fn str_eq(a: &str, b: &str) -> (r: bool)
    ensures
        r == (a@ == b@),
{
    a == b
}

/// Relies on `String::push_str`: appends the given slice's characters to the
/// end of the string.
#[verifier::external_body]
pub fn push_str(s: &mut String, t: &str)
    ensures
        final(s)@ == old(s)@ + t@,
{
    s.push_str(t);
}

/// Relies on `String::push`: appends the given character to the end of the
/// string.
#[verifier::external_body]
pub fn push_char(s: &mut String, c: char)
    ensures
        final(s)@ == old(s)@.push(c),
{
    s.push(c);
}

/// Relies on `String::from_utf8`: succeeds exactly on valid UTF-8 input and
/// returns the decoded character sequence.
#[verifier::external_body]
pub fn string_from_utf8(v: Vec<u8>) -> (r: Option<String>)
    ensures
        r is Some <==> vstd::utf8::valid_utf8(v@),
        r is Some ==> r->0@ == vstd::utf8::decode_utf8(v@),
{
    String::from_utf8(v).ok()
}

/// Swaps the new value in and hands the old one back.
pub fn mem_replace<T>(dest: &mut T, src: T) -> (r: T)
    ensures
        r == *old(dest),
        *final (dest) == src,
{
    let mut src = src;
    core::mem::swap(dest, &mut src);
    src
}

/// The concatenation of two strings, as a new `String`.
pub fn concat2(a: &str, b: &str) -> (r: String)
    ensures
        r@ == a@ + b@,
{
    let mut s = a.to_owned();
    push_str(&mut s, b);
    s
}

/// The concatenation of three strings, as a new `String`.
pub fn concat3(a: &str, b: &str, c: &str) -> (r: String)
    ensures
        r@ == a@ + b@ + c@,
{
    let mut s = concat2(a, b);
    push_str(&mut s, c);
    s
}

/// The groups obtained by cutting `s` at every occurrence of `sep`; there is
/// always at least one group, and separators are not part of any group.
pub open spec fn spec_split(s: Seq<char>, sep: char) -> Seq<Seq<char>>
    decreases s.len(),
{
    if s.len() == 0 {
        seq![Seq::<char>::empty()]
    } else if s[0] == sep {
        seq![Seq::<char>::empty()] + spec_split(s.skip(1), sep)
    } else {
        let rest = spec_split(s.skip(1), sep);
        seq![seq![s[0]] + rest[0]] + rest.skip(1)
    }
}

/// A split has at least one group.
pub proof fn lemma_split_len(s: Seq<char>, sep: char)
    ensures
        spec_split(s, sep).len() >= 1,
    decreases s.len(),
{
    if s.len() > 0 {
        lemma_split_len(s.skip(1), sep);
    }
}

/// The split of `prefix + s`, where `prefix` has no separator, is the split
/// of `s` with `prefix` glued onto its first group.
proof fn lemma_split_prefix(s: Seq<char>, sep: char, i: int)
    requires
        0 <= i < s.len(),
        s[i] != sep,
    ensures
        ({
            let a = spec_split(s.skip(i), sep);
            let b = spec_split(s.skip(i + 1), sep);
            a =~= seq![seq![s[i]] + b[0]] + b.skip(1)
        }),
{
    lemma_split_len(s.skip(i + 1), sep);
    assert(s.skip(i)[0] == s[i]);
    assert(s.skip(i).skip(1) =~= s.skip(i + 1));
}

/// Cuts `s` at every occurrence of `sep`.
pub fn split_char(s: &str, sep: char) -> (r: Vec<String>)
    ensures
        r@.len() == spec_split(s@, sep).len(),
        forall|i: int| 0 <= i < r@.len() ==> r@[i]@ == spec_split(s@, sep)[i],
{
    let n = s.unicode_len();
    let mut out: Vec<String> = Vec::new();
    let mut cur = String::new();
    let mut i: usize = 0;
    proof {
        assert(s@.skip(0) =~= s@);
    }
    while i < n
        invariant
            0 <= i <= n,
            n == s@.len(),
            ({
                let full = spec_split(s@, sep);
                let rest = spec_split(s@.skip(i as int), sep);
                &&& full.len() == out@.len() + rest.len()
                &&& (forall|j: int| 0 <= j < out@.len() ==> out@[j]@ == full[j])
                &&& full[out@.len() as int] == cur@ + rest[0]
                &&& (forall|j: int|
                    1 <= j < rest.len() ==> full[out@.len() + j] == rest[j])
            }),
        decreases n - i,
    {
        let c = s.get_char(i);
        proof {
            lemma_split_len(s@.skip(i as int + 1), sep);
            assert(s@.skip(i as int)[0] == s@[i as int]);
            assert(s@.skip(i as int).skip(1) =~= s@.skip(i as int + 1));
        }
        if c == sep {
            proof {
                let full = spec_split(s@, sep);
                let rest_old = spec_split(s@.skip(i as int), sep);
                let rest_new = spec_split(s@.skip(i as int + 1), sep);
                assert(rest_old =~= seq![Seq::<char>::empty()] + rest_new);
                assert(cur@ + rest_old[0] =~= cur@);
                assert(full[out@.len() as int] == cur@);
                assert(full[out@.len() as int + 1] == rest_old[1]);
                assert(rest_old[1] == rest_new[0]);
                assert(Seq::<char>::empty() + rest_new[0] =~= rest_new[0]);
                assert forall|j: int| 1 <= j < rest_new.len() implies full[out@.len() as int + 1 + j]
                    == rest_new[j] by {
                    assert(full[out@.len() as int + (j + 1)] == rest_old[j + 1]);
                    assert(rest_old[j + 1] == rest_new[j]);
                }
            }
            out.push(cur);
            cur = String::new();
        } else {
            proof {
                lemma_split_prefix(s@, sep, i as int);
                let full = spec_split(s@, sep);
                let rest_old = spec_split(s@.skip(i as int), sep);
                let rest_new = spec_split(s@.skip(i as int + 1), sep);
                assert(rest_old =~= seq![seq![c] + rest_new[0]] + rest_new.skip(1));
                assert(rest_old.len() == rest_new.len());
                assert(cur@ + rest_old[0] =~= cur@.push(c) + rest_new[0]);
                assert forall|j: int| 1 <= j < rest_new.len() implies full[out@.len() as int + j]
                    == rest_new[j] by {
                    assert(full[out@.len() as int + j] == rest_old[j]);
                    assert(rest_old[j] == rest_new.skip(1)[j - 1]);
                    assert(rest_new.skip(1)[j - 1] == rest_new[j]);
                }
            }
            push_char(&mut cur, c);
        }
        i += 1;
    }
    proof {
        assert(s@.skip(n as int) =~= Seq::<char>::empty());
    }
    out.push(cur);
    out
}

/// A split into a single group means the text held no separator, and the one
/// group is the whole text.
pub proof fn lemma_split_single(s: Seq<char>, sep: char)
    ensures
        spec_split(s, sep).len() == 1 ==> spec_split(s, sep)[0] == s,
    decreases s.len(),
{
    if s.len() == 0 {
        assert(spec_split(s, sep)[0] =~= s);
    } else {
        lemma_split_len(s.skip(1), sep);
        if s[0] != sep {
            lemma_split_single(s.skip(1), sep);
            if spec_split(s, sep).len() == 1 {
                assert(spec_split(s.skip(1), sep).len() == 1);
                assert(spec_split(s, sep)[0] =~= seq![s[0]] + s.skip(1));
                assert(seq![s[0]] + s.skip(1) =~= s);
            }
        }
    }
}

/// When the text does not open with the separator, the first group opens with
/// the text's first character.
pub proof fn lemma_split_first_char(s: Seq<char>, sep: char)
    requires
        s.len() > 0,
        s[0] != sep,
    ensures
        spec_split(s, sep)[0].len() >= 1,
        spec_split(s, sep)[0][0] == s[0],
        spec_split(s, sep)[0].skip(1) == spec_split(s, sep)[0].subrange(
            1,
            spec_split(s, sep)[0].len() as int,
        ),
{
    lemma_split_len(s.skip(1), sep);
    assert(spec_split(s, sep)[0] == seq![s[0]] + spec_split(s.skip(1), sep)[0]);
    assert((seq![s[0]] + spec_split(s.skip(1), sep)[0])[0] == s[0]);
    assert(spec_split(s, sep)[0].skip(1) =~= spec_split(s, sep)[0].subrange(
        1,
        spec_split(s, sep)[0].len() as int,
    ));
}

} // verus!
