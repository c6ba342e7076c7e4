//! Small verified text utilities shared by the pipeline: prefix tests,
//! character search and substitution, and decimal formatting/parsing.

use vstd::prelude::*;

verus! {

/// `pat` occurs in `s` at position `i`.
pub open spec fn occurs_at<A>(s: Seq<A>, pat: Seq<A>, i: int) -> bool {
    0 <= i && i + pat.len() <= s.len() && s.subrange(i, i + pat.len() as int) == pat
}

/// `pat` occurs somewhere in `s`.
pub open spec fn contains_seq<A>(s: Seq<A>, pat: Seq<A>) -> bool {
    exists|i: int| occurs_at(s, pat, i)
}

/// Character-for-character substitution used when a package name's `@`
/// separators become path separators inside an OCI blob URL.
pub open spec fn at_to_slash(s: Seq<char>) -> Seq<char> {
    s.map_values(|c: char| if c == '@' { '/' } else { c })
}

/// Does `s` start with `pre`?
pub fn str_starts_with(s: &str, pre: &str) -> (r: bool)
    ensures
        r == pre@.is_prefix_of(s@),
{
    let n: usize = pre.unicode_len();
    if n > s.unicode_len() {
        proof {
            assert(!pre@.is_prefix_of(s@));
        }
        return false;
    }
    let mut i: usize = 0;
    while i < n
        invariant
            i <= n,
            n == pre@.len(),
            n <= s@.len(),
            forall|j: int| 0 <= j < i ==> s@[j] == pre@[j],
        decreases n - i,
    {
        if s.get_char(i) != pre.get_char(i) {
            proof {
                assert(s@.subrange(0, n as int)[i as int] != pre@[i as int]);
            }
            return false;
        }
        i += 1;
    }
    proof {
        assert(pre@ =~= s@.subrange(0, n as int));
    }
    true
}

/// Are two strings the same sequence of characters?
pub fn str_eq(a: &str, b: &str) -> (r: bool)
    ensures
        r == (a@ == b@),
{
    let n: usize = a.unicode_len();
    if n != b.unicode_len() {
        return false;
    }
    let mut i: usize = 0;
    while i < n
        invariant
            i <= n,
            n == a@.len(),
            n == b@.len(),
            forall|j: int| 0 <= j < i ==> a@[j] == b@[j],
        decreases n - i,
    {
        if a.get_char(i) != b.get_char(i) {
            return false;
        }
        i += 1;
    }
    proof {
        assert(a@ =~= b@);
    }
    true
}

/// Copy of `s` with every `@` replaced by `/`.
pub fn replace_at_with_slash(s: &str) -> (r: String)
    ensures
        r@ == at_to_slash(s@),
{
    let n: usize = s.unicode_len();
    let mut out = String::new();
    let mut i: usize = 0;
    while i < n
        invariant
            i <= n,
            n == s@.len(),
            out@ =~= at_to_slash(s@.subrange(0, i as int)),
        decreases n - i,
    {
        let c = s.get_char(i);
        if c == '@' {
            proof {
                reveal_strlit("/");
            }
            out.append("/");
            proof {
                assert("/"@ =~= seq!['/']);
            }
        } else {
            let piece = s.substring_char(i, i + 1);
            proof {
                assert(piece@ =~= seq![s@[i as int]]);
            }
            out.append(piece);
        }
        proof {
            let pre = s@.subrange(0, i as int);
            let ext = s@.subrange(0, i + 1);
            assert(ext =~= pre.push(s@[i as int]));
            assert(at_to_slash(ext) =~= at_to_slash(pre).push(
                if s@[i as int] == '@' {
                    '/'
                } else {
                    s@[i as int]
                },
            ));
            assert(out@ =~= at_to_slash(ext));
        }
        i += 1;
    }
    proof {
        assert(s@.subrange(0, n as int) =~= s@);
    }
    out
}

/// Left-to-right replacement of every occurrence of `pat` by `rep`:
/// at each position, either `pat` matches and is replaced wholesale, or
/// one byte is copied. An empty pattern never matches.
pub open spec fn spec_replace_all(text: Seq<u8>, pat: Seq<u8>, rep: Seq<u8>) -> Seq<u8>
    decreases text.len(),
{
    if pat.len() == 0 || text.len() == 0 {
        text
    } else if pat.is_prefix_of(text) {
        rep + spec_replace_all(text.skip(pat.len() as int), pat, rep)
    } else {
        seq![text[0]] + spec_replace_all(text.skip(1), pat, rep)
    }
}

/// Are two byte vectors equal?
pub fn bytes_eq(a: &Vec<u8>, b: &Vec<u8>) -> (r: bool)
    ensures
        r == (a@ == b@),
{
    let n: usize = a.len();
    if n != b.len() {
        return false;
    }
    let mut i: usize = 0;
    while i < n
        invariant
            i <= n,
            n == a@.len(),
            n == b@.len(),
            forall|j: int| 0 <= j < i ==> a@[j] == b@[j],
        decreases n - i,
    {
        if a[i] != b[i] {
            return false;
        }
        i += 1;
    }
    proof {
        assert(a@ =~= b@);
    }
    true
}

/// Does `pat` match `text` at position `i`?
pub fn matches_at(text: &Vec<u8>, pat: &Vec<u8>, i: usize) -> (r: bool)
    requires
        i <= text@.len(),
    ensures
        r == (i + pat@.len() <= text@.len() && pat@.is_prefix_of(text@.skip(i as int))),
{
    if pat.len() > text.len() - i {
        return false;
    }
    let n: usize = text.len();
    let m: usize = pat.len();
    let mut j: usize = 0;
    while j < m
        invariant
            j <= m,
            n == text@.len(),
            m == pat@.len(),
            i + m <= n,
            forall|k: int| 0 <= k < j ==> text@[i + k] == pat@[k],
        decreases m - j,
    {
        if text[i + j] != pat[j] {
            proof {
                assert(text@.skip(i as int)[j as int] != pat@[j as int]);
            }
            return false;
        }
        j += 1;
    }
    proof {
        assert(pat@ =~= text@.skip(i as int).subrange(0, pat@.len() as int));
    }
    true
}

proof fn lemma_replace_step_match(text: Seq<u8>, pat: Seq<u8>, rep: Seq<u8>, i: int)
    requires
        pat.len() >= 1,
        0 <= i,
        i + pat.len() <= text.len(),
        pat.is_prefix_of(text.skip(i)),
    ensures
        spec_replace_all(text.skip(i), pat, rep) == rep + spec_replace_all(
            text.skip(i + pat.len()),
            pat,
            rep,
        ),
{
    assert(text.skip(i).skip(pat.len() as int) =~= text.skip(i + pat.len()));
}

proof fn lemma_replace_step_nomatch(text: Seq<u8>, pat: Seq<u8>, rep: Seq<u8>, i: int)
    requires
        pat.len() >= 1,
        0 <= i < text.len(),
        !pat.is_prefix_of(text.skip(i)),
    ensures
        spec_replace_all(text.skip(i), pat, rep) == seq![text[i]] + spec_replace_all(
            text.skip(i + 1),
            pat,
            rep,
        ),
{
    assert(text.skip(i)[0] == text[i]);
    assert(text.skip(i).skip(1) =~= text.skip(i + 1));
}

/// Replace every occurrence of `pat` in `text` by `rep`; the flag says
/// whether anything matched, which is exactly whether `pat` occurs in
/// `text`.
pub fn replace_all(text: &Vec<u8>, pat: &Vec<u8>, rep: &Vec<u8>) -> (r: (Vec<u8>, bool))
    requires
        pat@.len() >= 1,
    ensures
        r.0@ == spec_replace_all(text@, pat@, rep@),
        r.1 == contains_seq(text@, pat@),
{
    let mut out: Vec<u8> = Vec::new();
    let mut changed = false;
    let mut i: usize = 0;
    proof {
        assert(text@.skip(0) =~= text@);
    }
    while i < text.len()
        invariant
            i <= text@.len(),
            pat@.len() >= 1,
            spec_replace_all(text@, pat@, rep@) == out@ + spec_replace_all(
                text@.skip(i as int),
                pat@,
                rep@,
            ),
            changed ==> contains_seq(text@, pat@),
            !changed ==> forall|j: int| 0 <= j < i ==> !occurs_at(text@, pat@, j),
        decreases text@.len() - i,
    {
        if matches_at(text, pat, i) {
            proof {
                lemma_replace_step_match(text@, pat@, rep@, i as int);
                assert(text@.subrange(i as int, i + pat@.len()) =~= text@.skip(i as int).subrange(
                    0,
                    pat@.len() as int,
                ));
                assert(occurs_at(text@, pat@, i as int));
            }
            let mut j: usize = 0;
            let ghost mid = out@;
            while j < rep.len()
                invariant
                    j <= rep@.len(),
                    out@ == mid + rep@.subrange(0, j as int),
                decreases rep@.len() - j,
            {
                out.push(rep[j]);
                proof {
                    assert(mid + rep@.subrange(0, j + 1) =~= (mid + rep@.subrange(
                        0,
                        j as int,
                    )).push(rep@[j as int]));
                }
                j += 1;
            }
            proof {
                assert(rep@.subrange(0, rep@.len() as int) =~= rep@);
                assert(out@ + spec_replace_all(text@.skip(i + pat@.len()), pat@, rep@) =~= (mid
                    + rep@) + spec_replace_all(text@.skip(i + pat@.len()), pat@, rep@));
            }
            changed = true;
            i += pat.len();
        } else {
            proof {
                lemma_replace_step_nomatch(text@, pat@, rep@, i as int);
                assert(forall|j: int|
                    0 <= j <= i && occurs_at(text@, pat@, j) ==> pat@.is_prefix_of(
                        text@.skip(i as int),
                    ) || j < i) by {
                    assert forall|j: int|
                        0 <= j <= i && occurs_at(text@, pat@, j) && j == i implies pat@.is_prefix_of(
                        text@.skip(i as int),
                    ) by {
                        assert(pat@ =~= text@.skip(i as int).subrange(0, pat@.len() as int));
                    }
                }
            }
            let b = text[i];
            out.push(b);
            proof {
                assert(out@ + spec_replace_all(text@.skip(i + 1), pat@, rep@) =~= (out@.drop_last()
                    + seq![text@[i as int]]) + spec_replace_all(text@.skip(i + 1), pat@, rep@));
            }
            i += 1;
        }
    }
    proof {
        assert(text@.skip(text@.len() as int) =~= Seq::<u8>::empty());
        assert(out@ + Seq::<u8>::empty() =~= out@);
        if !changed {
            assert forall|j: int| !occurs_at(text@, pat@, j) by {
                if 0 <= j && j + pat@.len() <= text@.len() {
                    assert(j < text@.len());
                }
            }
        }
    }
    (out, changed)
}

/// If some tail of the pattern (cut at `k`) is a prefix of the
/// replaced text, it was already a prefix of the input text: the
/// rewrite cannot manufacture it, because a replacement block starts
/// with `rep[0]`, which the pattern's tail never contains.
proof fn lemma_tail_prefix_preserved(text: Seq<u8>, pat: Seq<u8>, rep: Seq<u8>, k: int)
    requires
        pat.len() >= 1,
        rep.len() >= 1,
        forall|j: int| 1 <= j < pat.len() ==> pat[j] != rep[0],
        1 <= k < pat.len(),
        pat.skip(k).is_prefix_of(spec_replace_all(text, pat, rep)),
    ensures
        pat.skip(k).is_prefix_of(text),
    decreases text.len(),
{
    let r = spec_replace_all(text, pat, rep);
    let tail = pat.skip(k);
    assert(tail.len() >= 1);
    if text.len() == 0 {
        assert(false);
    } else if pat.is_prefix_of(text) {
        assert(r[0] == rep[0]);
        assert(tail[0] == pat[k]);
        assert(false);
    } else {
        let r2 = spec_replace_all(text.skip(1), pat, rep);
        assert(r == seq![text[0]] + r2);
        assert(tail[0] == r[0]);
        assert(r[0] == text[0]);
        if k + 1 == pat.len() {
            assert(tail =~= text.subrange(0, 1));
        } else {
            let tail2 = pat.skip(k + 1);
            let pre2 = r2.subrange(0, tail2.len() as int);
            assert forall|j: int| 0 <= j < tail2.len() implies #[trigger] tail2[j] == pre2[j] by {
                assert(tail2[j] == tail[j + 1]);
                assert(tail[j + 1] == r.subrange(0, tail.len() as int)[j + 1]);
                assert(r[j + 1] == r2[j]);
            }
            assert(tail2 =~= pre2);
            lemma_tail_prefix_preserved(text.skip(1), pat, rep, k + 1);
            let tpre = text.subrange(0, tail.len() as int);
            let tpre2 = text.skip(1).subrange(0, tail2.len() as int);
            assert forall|j: int| 0 <= j < tail.len() implies #[trigger] tail[j] == tpre[j] by {
                if j >= 1 {
                    assert(tail[j] == tail2[j - 1]);
                    assert(tail2[j - 1] == tpre2[j - 1]);
                    assert(tpre2[j - 1] == text[j]);
                }
            }
            assert(tail =~= tpre);
        }
    }
}

/// After replacement the pattern is gone, provided the pattern cannot
/// straddle a rewritten block: the replacement must not contain the
/// pattern's first byte, and the replacement's first byte must not
/// appear in the pattern past position zero. A placeholder opening with
/// a marker byte that real paths never contain satisfies both.
pub proof fn lemma_replace_all_removes_pattern(text: Seq<u8>, pat: Seq<u8>, rep: Seq<u8>)
    requires
        pat.len() >= 1,
        rep.len() >= 1,
        !rep.contains(pat[0]),
        forall|j: int| 1 <= j < pat.len() ==> pat[j] != rep[0],
    ensures
        !contains_seq(spec_replace_all(text, pat, rep), pat),
    decreases text.len(),
{
    let r = spec_replace_all(text, pat, rep);
    if text.len() == 0 {
        assert forall|i: int| !occurs_at(r, pat, i) by {}
    } else if pat.is_prefix_of(text) {
        let r2 = spec_replace_all(text.skip(pat.len() as int), pat, rep);
        lemma_replace_all_removes_pattern(text.skip(pat.len() as int), pat, rep);
        assert(r == rep + r2);
        assert forall|i: int| !occurs_at(r, pat, i) by {
            if 0 <= i && i + pat.len() <= r.len() {
                if i < rep.len() {
                    if occurs_at(r, pat, i) {
                        assert(r.subrange(i, i + pat.len() as int)[0] == pat[0]);
                        assert(r[i] == rep[i]);
                        assert(rep.contains(pat[0]));
                    }
                } else {
                    if occurs_at(r, pat, i) {
                        assert(r.subrange(i, i + pat.len() as int) =~= r2.subrange(
                            i - rep.len(),
                            i - rep.len() + pat.len(),
                        ));
                        assert(occurs_at(r2, pat, i - rep.len()));
                    }
                }
            }
        }
    } else {
        let r2 = spec_replace_all(text.skip(1), pat, rep);
        lemma_replace_all_removes_pattern(text.skip(1), pat, rep);
        assert(r == seq![text[0]] + r2);
        assert forall|i: int| !occurs_at(r, pat, i) by {
            if 0 <= i && i + pat.len() <= r.len() {
                if i >= 1 {
                    if occurs_at(r, pat, i) {
                        assert(r.subrange(i, i + pat.len() as int) =~= r2.subrange(
                            i - 1,
                            i - 1 + pat.len(),
                        ));
                        assert(occurs_at(r2, pat, i - 1));
                    }
                } else {
                    if occurs_at(r, pat, 0) {
                        assert(pat =~= r.subrange(0, pat.len() as int));
                        assert(pat[0] == r[0]);
                        assert(r[0] == text[0]);
                        if pat.len() == 1 {
                            assert(pat =~= text.subrange(0, 1));
                            assert(pat.is_prefix_of(text));
                        } else {
                            let tail = pat.skip(1);
                            let pre2 = r2.subrange(0, tail.len() as int);
                            assert forall|j: int| 0 <= j < tail.len() implies #[trigger] tail[j]
                                == pre2[j] by {
                                assert(tail[j] == pat[j + 1]);
                                assert(pat[j + 1] == r.subrange(0, pat.len() as int)[j + 1]);
                                assert(r[j + 1] == r2[j]);
                            }
                            assert(tail =~= pre2);
                            lemma_tail_prefix_preserved(text.skip(1), pat, rep, 1);
                            let tpre = text.subrange(0, pat.len() as int);
                            let tpre2 = text.skip(1).subrange(0, tail.len() as int);
                            assert forall|j: int| 0 <= j < pat.len() implies #[trigger] pat[j]
                                == tpre[j] by {
                                if j >= 1 {
                                    assert(pat[j] == tail[j - 1]);
                                    assert(tail[j - 1] == tpre2[j - 1]);
                                    assert(tpre2[j - 1] == text[j]);
                                }
                            }
                            assert(pat =~= tpre);
                            assert(pat.is_prefix_of(text));
                        }
                    }
                }
            }
        }
    }
}

/// If the pattern occurred, the replacement occurs in the result.
pub proof fn lemma_replace_all_inserts_replacement(text: Seq<u8>, pat: Seq<u8>, rep: Seq<u8>)
    requires
        pat.len() >= 1,
        contains_seq(text, pat),
    ensures
        contains_seq(spec_replace_all(text, pat, rep), rep),
    decreases text.len(),
{
    let r = spec_replace_all(text, pat, rep);
    let i = choose|i: int| occurs_at(text, pat, i);
    assert(text.len() >= 1);
    if pat.is_prefix_of(text) {
        let r2 = spec_replace_all(text.skip(pat.len() as int), pat, rep);
        assert(r == rep + r2);
        assert(rep =~= r.subrange(0, rep.len() as int));
        assert(occurs_at(r, rep, 0));
    } else {
        assert(i != 0) by {
            if i == 0 {
                assert(pat =~= text.subrange(0, pat.len() as int));
            }
        }
        let r2 = spec_replace_all(text.skip(1), pat, rep);
        assert(r == seq![text[0]] + r2);
        assert(occurs_at(text.skip(1), pat, i - 1)) by {
            assert(text.skip(1).subrange(i - 1, i - 1 + pat.len()) =~= text.subrange(
                i,
                i + pat.len() as int,
            ));
        }
        lemma_replace_all_inserts_replacement(text.skip(1), pat, rep);
        let j2 = choose|j: int| occurs_at(r2, rep, j);
        assert(occurs_at(r, rep, j2 + 1)) by {
            assert(r.subrange(j2 + 1, j2 + 1 + rep.len() as int) =~= r2.subrange(
                j2,
                j2 + rep.len() as int,
            ));
        }
    }
}

/// The character standing for the decimal digit `d`.
pub open spec fn digit_char(d: nat) -> char {
    if d == 0 {
        '0'
    } else if d == 1 {
        '1'
    } else if d == 2 {
        '2'
    } else if d == 3 {
        '3'
    } else if d == 4 {
        '4'
    } else if d == 5 {
        '5'
    } else if d == 6 {
        '6'
    } else if d == 7 {
        '7'
    } else if d == 8 {
        '8'
    } else {
        '9'
    }
}

/// Decimal digit string of `n`, most significant digit first, no leading
/// zeros (except for `n == 0` itself).
pub open spec fn dec_digits(n: nat) -> Seq<char>
    decreases n,
{
    if n < 10 {
        seq![digit_char(n)]
    } else {
        dec_digits(n / 10) + seq![digit_char(n % 10)]
    }
}

fn digit_str(d: u64) -> (r: &'static str)
    requires
        d < 10,
    ensures
        r@ =~= seq![digit_char(d as nat)],
{
    proof {
        reveal_strlit("0");
        reveal_strlit("1");
        reveal_strlit("2");
        reveal_strlit("3");
        reveal_strlit("4");
        reveal_strlit("5");
        reveal_strlit("6");
        reveal_strlit("7");
        reveal_strlit("8");
        reveal_strlit("9");
    }
    match d {
        0 => "0",
        1 => "1",
        2 => "2",
        3 => "3",
        4 => "4",
        5 => "5",
        6 => "6",
        7 => "7",
        8 => "8",
        _ => "9",
    }
}

/// Decimal rendering of `n`.
pub fn u64_to_dec(n: u64) -> (r: String)
    ensures
        r@ == dec_digits(n as nat),
    decreases n,
{
    if n < 10 {
        String::from_str(digit_str(n))
    } else {
        let mut s = u64_to_dec(n / 10);
        s.append(digit_str(n % 10));
        s
    }
}

/// Is every character of `s` a decimal digit?
pub open spec fn all_dec_digits(s: Seq<char>) -> bool {
    forall|i: int| 0 <= i < s.len() ==> '0' <= #[trigger] s[i] <= '9'
}

/// Numeric value of a character that is a decimal digit.
pub open spec fn digit_val(c: char) -> nat {
    (c as nat - '0' as nat) as nat
}

/// Value of an all-digit string read as a decimal number.
pub open spec fn dec_value(s: Seq<char>) -> nat
    decreases s.len(),
{
    if s.len() == 0 {
        0
    } else {
        dec_value(s.drop_last()) * 10 + digit_val(s.last())
    }
}

/// Appending digits never decreases the value of the prefix read so far.
proof fn lemma_dec_value_prefix(s: Seq<char>, i: int)
    requires
        0 <= i <= s.len(),
    ensures
        dec_value(s.subrange(0, i)) <= dec_value(s),
    decreases s.len() - i,
{
    if i == s.len() {
        assert(s.subrange(0, i) =~= s);
    } else {
        lemma_dec_value_prefix(s, i + 1);
        let t = s.subrange(0, i + 1);
        assert(t.drop_last() =~= s.subrange(0, i));
        assert(dec_value(s.subrange(0, i)) * 10 + digit_val(t.last()) == dec_value(t));
        assert(dec_value(s.subrange(0, i)) <= dec_value(t)) by (nonlinear_arith)
            requires
                dec_value(t) == dec_value(s.subrange(0, i)) * 10 + digit_val(t.last()),
        ;
    }
}

fn exec_digit_val(c: char) -> (r: Option<u64>)
    ensures
        match r {
            Some(v) => '0' <= c <= '9' && v == digit_val(c) && v < 10,
            None => !('0' <= c <= '9'),
        },
{
    match c {
        '0' => Some(0),
        '1' => Some(1),
        '2' => Some(2),
        '3' => Some(3),
        '4' => Some(4),
        '5' => Some(5),
        '6' => Some(6),
        '7' => Some(7),
        '8' => Some(8),
        '9' => Some(9),
        _ => None,
    }
}

/// Parse a decimal number, as the size resolver does with a
/// `content-length` header value. Returns the value exactly when the
/// string is non-empty, all digits, and the value fits in a `u64`.
pub fn parse_u64_dec(s: &str) -> (r: Option<u64>)
    ensures
        match r {
            Some(v) => s@.len() > 0 && all_dec_digits(s@) && dec_value(s@) <= u64::MAX && v
                == dec_value(s@),
            None => !(s@.len() > 0 && all_dec_digits(s@) && dec_value(s@) <= u64::MAX),
        },
{
    let n: usize = s.unicode_len();
    if n == 0 {
        return None;
    }
    let mut acc: u64 = 0;
    let mut i: usize = 0;
    while i < n
        invariant
            0 < n == s@.len(),
            i <= n,
            all_dec_digits(s@.subrange(0, i as int)),
            acc == dec_value(s@.subrange(0, i as int)),
        decreases n - i,
    {
        let c = s.get_char(i);
        let d = match exec_digit_val(c) {
            Some(d) => d,
            None => {
                proof {
                    assert(s@.subrange(0, s@.len() as int) =~= s@);
                    assert(!all_dec_digits(s@));
                }
                return None;
            },
        };
        let next = match acc.checked_mul(10) {
            Some(m) => m.checked_add(d),
            None => None,
        };
        proof {
            let t = s@.subrange(0, i + 1);
            assert(t.drop_last() =~= s@.subrange(0, i as int));
            assert(dec_value(t) == dec_value(s@.subrange(0, i as int)) * 10 + digit_val(c));
        }
        match next {
            Some(v) => {
                acc = v;
            },
            None => {
                proof {
                    lemma_dec_value_prefix(s@, i + 1);
                    assert(dec_value(s@) > u64::MAX);
                }
                return None;
            },
        }
        i += 1;
    }
    proof {
        assert(s@.subrange(0, n as int) =~= s@);
    }
    Some(acc)
}

} // verus!
