//! Stage seven: linking. Package contents are symlinked into the
//! shared prefix: the conventional directories, a share/libexec
//! directory named after the package's base name, and any override
//! paths declared by the manifest's `link_overwrite` directive. The
//! directive is read by a small explicit grammar: a bracketed list of
//! quoted literals, accumulated across continuation lines until the
//! brackets balance. Symlink creation happens outside the library.

use vstd::prelude::*;
use crate::error::Error;
use crate::package::{Package, PackageRegistry, Stage};
use crate::text::matches_at;

verus! {

/// Horizontal whitespace of the manifest grammar.
pub open spec fn spec_ws(b: u8) -> bool {
    b == 32u8 || b == 9u8
}

/// First index at or after `i` holding something other than
/// whitespace (or the length, when only whitespace remains).
pub open spec fn spec_skip_ws(s: Seq<u8>, i: int) -> int
    decreases s.len() - i,
        when 0 <= i <= s.len()
{
    if i >= s.len() {
        i
    } else if spec_ws(s[i]) {
        spec_skip_ws(s, i + 1)
    } else {
        i
    }
}

/// Index of the next double quote at or after `i`, if any.
pub open spec fn spec_find_quote(s: Seq<u8>, i: int) -> Option<int>
    decreases s.len() - i,
        when 0 <= i <= s.len()
{
    if i >= s.len() {
        None
    } else if s[i] == 34u8 {
        Some(i)
    } else {
        spec_find_quote(s, i + 1)
    }
}

/// Items of a bracketed list, parsed from the text that follows the
/// opening bracket: quoted literals separated by commas, closed by
/// `]`, nothing but whitespace after. `None` on any other shape.
pub open spec fn spec_parse_items(s: Seq<u8>) -> Option<Seq<Seq<u8>>>
    decreases s.len(),
{
    let j = spec_skip_ws(s, 0);
    if !(0 <= j < s.len()) {
        None
    } else if s[j] == 93u8 {
        // ']'
        if spec_skip_ws(s, j + 1) == s.len() {
            Some(Seq::<Seq<u8>>::empty())
        } else {
            None
        }
    } else if s[j] == 34u8 {
        // '"'
        match spec_find_quote(s, j + 1) {
            None => None,
            Some(k) => {
                if !(j + 1 <= k < s.len()) {
                    None
                } else {
                    let item = s.subrange(j + 1, k);
                    let m = spec_skip_ws(s, k + 1);
                    if !(k + 1 <= m < s.len()) {
                        None
                    } else if s[m] == 44u8 {
                        // ','
                        match spec_parse_items(s.skip(m + 1)) {
                            Some(rest) => Some(seq![item] + rest),
                            None => None,
                        }
                    } else if s[m] == 93u8 {
                        // ']'
                        if spec_skip_ws(s, m + 1) == s.len() {
                            Some(seq![item])
                        } else {
                            None
                        }
                    } else {
                        None
                    }
                }
            },
        }
    } else {
        None
    }
}

/// A bracketed list of quoted literals: `[` then items.
pub open spec fn spec_parse_string_list(s: Seq<u8>) -> Option<Seq<Seq<u8>>> {
    let i = spec_skip_ws(s, 0);
    if 0 <= i < s.len() && s[i] == 91u8 {
        // '['
        spec_parse_items(s.skip(i + 1))
    } else {
        None
    }
}

/// Executable whitespace skip.
#[verifier::loop_isolation(false)]
fn skip_ws(s: &Vec<u8>, i: usize) -> (r: usize)
    requires
        i <= s@.len(),
    ensures
        r == spec_skip_ws(s@, i as int),
        i <= r <= s@.len(),
{
    let mut j = i;
    while j < s.len() && (s[j] == 32u8 || s[j] == 9u8)
        invariant
            i <= j <= s@.len(),
            spec_skip_ws(s@, i as int) == spec_skip_ws(s@, j as int),
        decreases s@.len() - j,
    {
        j += 1;
    }
    j
}

/// Executable quote search.
#[verifier::loop_isolation(false)]
fn find_quote(s: &Vec<u8>, i: usize) -> (r: Option<usize>)
    requires
        i <= s@.len(),
    ensures
        match r {
            Some(k) => spec_find_quote(s@, i as int) == Some(k as int) && i <= k < s@.len(),
            None => spec_find_quote(s@, i as int) is None,
        },
{
    let mut j = i;
    while j < s.len() && s[j] != 34u8
        invariant
            i <= j <= s@.len(),
            spec_find_quote(s@, i as int) == spec_find_quote(s@, j as int),
        decreases s@.len() - j,
    {
        j += 1;
    }
    if j < s.len() {
        Some(j)
    } else {
        None
    }
}

/// Copy of the suffix of `s` from `i` on.
fn vec_skip(s: &Vec<u8>, i: usize) -> (r: Vec<u8>)
    requires
        i <= s@.len(),
    ensures
        r@ == s@.skip(i as int),
{
    let mut out: Vec<u8> = Vec::new();
    let mut j = i;
    while j < s.len()
        invariant
            i <= j <= s@.len(),
            out@ =~= s@.subrange(i as int, j as int),
        decreases s@.len() - j,
    {
        out.push(s[j]);
        proof {
            assert(out@ =~= s@.subrange(i as int, j + 1));
        }
        j += 1;
    }
    proof {
        assert(out@ =~= s@.skip(i as int));
    }
    out
}

/// Copy of `s[from..to]`.
fn vec_slice(s: &Vec<u8>, from: usize, to: usize) -> (r: Vec<u8>)
    requires
        from <= to <= s@.len(),
    ensures
        r@ == s@.subrange(from as int, to as int),
{
    let mut out: Vec<u8> = Vec::new();
    let mut j = from;
    while j < to
        invariant
            from <= j <= to <= s@.len(),
            out@ =~= s@.subrange(from as int, j as int),
        decreases to - j,
    {
        out.push(s[j]);
        proof {
            assert(out@ =~= s@.subrange(from as int, j + 1));
        }
        j += 1;
    }
    out
}

/// Parse the items that follow an opening bracket.
#[verifier::loop_isolation(false)]
fn parse_items(s: &Vec<u8>) -> (r: Option<Vec<Vec<u8>>>)
    ensures
        match r {
            Some(items) => spec_parse_items(s@) == Some(items@.map_values(|v: Vec<u8>| v@)),
            None => spec_parse_items(s@) is None,
        },
    decreases s@.len(),
{
    let j = skip_ws(s, 0);
    if j >= s.len() {
        return None;
    }
    if s[j] == 93u8 {
        if skip_ws(s, j + 1) == s.len() {
            let items: Vec<Vec<u8>> = Vec::new();
            proof {
                assert(items@.map_values(|v: Vec<u8>| v@) =~= Seq::<Seq<u8>>::empty());
            }
            return Some(items);
        } else {
            return None;
        }
    }
    if s[j] != 34u8 {
        return None;
    }
    let k = match find_quote(s, j + 1) {
        Some(k) => k,
        None => {
            return None;
        },
    };
    let item = vec_slice(s, j + 1, k);
    let m = skip_ws(s, k + 1);
    if m >= s.len() {
        return None;
    }
    if s[m] == 44u8 {
        let tail = vec_skip(s, m + 1);
        match parse_items(&tail) {
            Some(rest) => {
                let mut items: Vec<Vec<u8>> = Vec::new();
                items.push(item);
                let mut rest = rest;
                let ghost restview = rest@;
                loop
                    invariant
                        items@.len() >= 1,
                        items@[0]@ == s@.subrange(j + 1, k as int),
                        items@.skip(1) + rest@ =~= restview,
                    decreases rest@.len(),
                {
                    if rest.len() == 0 {
                        break;
                    }
                    let x = rest.remove(0);
                    items.push(x);
                    proof {
                        assert(items@.skip(1) + rest@ =~= restview);
                    }
                }
                proof {
                    assert(items@.skip(1) =~= restview);
                    assert(items@.map_values(|v: Vec<u8>| v@) =~= seq![s@.subrange(j + 1, k as int)]
                        + restview.map_values(|v: Vec<u8>| v@));
                }
                Some(items)
            },
            None => None,
        }
    } else if s[m] == 93u8 {
        if skip_ws(s, m + 1) == s.len() {
            let mut items: Vec<Vec<u8>> = Vec::new();
            items.push(item);
            proof {
                assert(items@.map_values(|v: Vec<u8>| v@) =~= seq![s@.subrange(j + 1, k as int)]);
            }
            Some(items)
        } else {
            None
        }
    } else {
        None
    }
}

/// Parse a bracketed list of quoted literals, the manifest's
/// `link_overwrite` payload.
pub fn parse_string_list(s: &Vec<u8>) -> (r: Option<Vec<Vec<u8>>>)
    ensures
        match r {
            Some(items) => spec_parse_string_list(s@) == Some(items@.map_values(|v: Vec<u8>| v@)),
            None => spec_parse_string_list(s@) is None,
        },
{
    let i = skip_ws(s, 0);
    if i < s.len() && s[i] == 91u8 {
        let tail = vec_skip(s, i + 1);
        parse_items(&tail)
    } else {
        None
    }
}

/// `s` with trailing whitespace removed.
pub open spec fn spec_trim_end(s: Seq<u8>) -> Seq<u8>
    decreases s.len(),
{
    if s.len() > 0 && spec_ws(s.last()) {
        spec_trim_end(s.drop_last())
    } else {
        s
    }
}

/// `s` with leading and trailing whitespace removed.
pub open spec fn spec_trim(s: Seq<u8>) -> Seq<u8> {
    spec_trim_end(s.skip(spec_skip_ws(s, 0)))
}

/// Trim a manifest line.
#[verifier::loop_isolation(false)]
pub fn trim_bytes(s: &Vec<u8>) -> (r: Vec<u8>)
    ensures
        r@ == spec_trim(s@),
{
    let j = skip_ws(s, 0);
    let mut e: usize = s.len();
    proof {
        assert(s@.subrange(j as int, e as int) =~= s@.skip(j as int));
    }
    while e > j && (s[e - 1] == 32u8 || s[e - 1] == 9u8)
        invariant
            j <= e <= s@.len(),
            spec_trim_end(s@.skip(j as int)) == spec_trim_end(s@.subrange(j as int, e as int)),
        decreases e,
    {
        proof {
            assert(s@.subrange(j as int, e as int).last() == s@[e - 1]);
            assert(s@.subrange(j as int, e as int).drop_last() =~= s@.subrange(j as int, e - 1));
        }
        e -= 1;
    }
    proof {
        if e > j {
            assert(s@.subrange(j as int, e as int).last() == s@[e - 1]);
        }
        assert(spec_trim_end(s@.subrange(j as int, e as int)) == s@.subrange(j as int, e as int));
    }
    vec_slice(s, j, e)
}

/// How many bytes of `s` equal `b`.
pub open spec fn spec_count(s: Seq<u8>, b: u8) -> int
    decreases s.len(),
{
    if s.len() == 0 {
        0
    } else {
        spec_count(s.drop_last(), b) + if s.last() == b {
            1int
        } else {
            0int
        }
    }
}

/// A directive's accumulated text is complete when its brackets
/// balance: at least one `[`, and no fewer `]` than `[`.
pub open spec fn spec_balanced(acc: Seq<u8>) -> bool {
    spec_count(acc, 91u8) >= 1 && spec_count(acc, 93u8) >= spec_count(acc, 91u8)
}

/// Count occurrences of one byte.
#[verifier::loop_isolation(false)]
fn count_byte(s: &Vec<u8>, b: u8) -> (r: usize)
    ensures
        r == spec_count(s@, b),
        r <= s@.len(),
{
    let mut c: usize = 0;
    let mut i: usize = 0;
    while i < s.len()
        invariant
            i <= s@.len(),
            c == spec_count(s@.take(i as int), b),
            c <= i,
        decreases s@.len() - i,
    {
        proof {
            assert(s@.take(i + 1).drop_last() =~= s@.take(i as int));
            assert(s@.take(i + 1).last() == s@[i as int]);
        }
        if s[i] == b {
            c += 1;
        }
        i += 1;
    }
    proof {
        assert(s@.take(s@.len() as int) =~= s@);
    }
    c
}

/// The directive keyword, `link_overwrite` followed by a space.
pub open spec fn spec_link_kw() -> Seq<u8> {
    seq![
        108u8,
        105u8,
        110u8,
        107u8,
        95u8,
        111u8,
        118u8,
        101u8,
        114u8,
        119u8,
        114u8,
        105u8,
        116u8,
        101u8,
        32u8,
    ]
}

/// A trimmed line opening with the directive keyword starts a
/// directive; what follows the keyword is its first text.
pub open spec fn spec_directive_rest(line: Seq<u8>) -> Option<Seq<u8>> {
    let t = spec_trim(line);
    if spec_link_kw().is_prefix_of(t) {
        Some(t.skip(15))
    } else {
        None
    }
}

fn link_kw() -> (r: Vec<u8>)
    ensures
        r@ == spec_link_kw(),
{
    let v: Vec<u8> = vec![
        108u8,
        105u8,
        110u8,
        107u8,
        95u8,
        111u8,
        118u8,
        101u8,
        114u8,
        119u8,
        114u8,
        105u8,
        116u8,
        101u8,
        32u8,
    ];
    proof {
        assert(v@ =~= spec_link_kw());
    }
    v
}

/// Scan a manifest's lines for `link_overwrite` directives: each
/// directive accumulates continuation lines until its brackets
/// balance, then its bracketed list of quoted literals is parsed; the
/// parsed items of all directives are concatenated. `None` when a
/// directive never closes or its list does not parse.
pub open spec fn spec_scan_lines(lines: Seq<Seq<u8>>, acc: Option<Seq<u8>>) -> Option<
    Seq<Seq<u8>>,
>
    decreases lines.len(),
{
    if lines.len() == 0 {
        if acc is None {
            Some(Seq::<Seq<u8>>::empty())
        } else {
            None
        }
    } else {
        let acc2_opt = match acc {
            None => spec_directive_rest(lines[0]),
            Some(a) => Some(a + spec_trim(lines[0])),
        };
        match acc2_opt {
            None => spec_scan_lines(lines.skip(1), None),
            Some(acc2) => if spec_balanced(acc2) {
                match spec_parse_string_list(acc2) {
                    None => None,
                    Some(items) => match spec_scan_lines(lines.skip(1), None) {
                        None => None,
                        Some(more) => Some(items + more),
                    },
                }
            } else {
                spec_scan_lines(lines.skip(1), Some(acc2))
            },
        }
    }
}

/// Executable scan over manifest lines; see [`spec_scan_lines`].
#[verifier::loop_isolation(false)]
pub fn scan_link_overwrite(lines: &Vec<Vec<u8>>) -> (r: Option<Vec<Vec<u8>>>)
    ensures
        match r {
            Some(items) => spec_scan_lines(lines@.map_values(|l: Vec<u8>| l@), None) == Some(
                items@.map_values(|v: Vec<u8>| v@),
            ),
            None => spec_scan_lines(lines@.map_values(|l: Vec<u8>| l@), None) is None,
        },
{
    let ghost lv = lines@.map_values(|l: Vec<u8>| l@);
    let kw = link_kw();
    let n: usize = lines.len();
    let mut out: Vec<Vec<u8>> = Vec::new();
    let mut acc: Option<Vec<u8>> = None;
    let mut i: usize = 0;
    proof {
        assert(lv.skip(0) =~= lv);
        assert(out@.map_values(|v: Vec<u8>| v@) =~= Seq::<Seq<u8>>::empty());
    }
    while i < n
        invariant
            i <= n,
            n == lines@.len(),
            lv == lines@.map_values(|l: Vec<u8>| l@),
            kw@ == spec_link_kw(),
            spec_scan_lines(lv, None) == (match spec_scan_lines(
                lv.skip(i as int),
                match acc {
                    Some(a) => Some(a@),
                    None => None,
                },
            ) {
                Some(rest) => Some(out@.map_values(|v: Vec<u8>| v@) + rest),
                None => None::<Seq<Seq<u8>>>,
            }),
        decreases n - i,
    {
        proof {
            assert(lv.skip(i as int)[0] == lv[i as int]);
            assert(lv[i as int] == lines@[i as int]@);
            assert(lv.skip(i as int).skip(1) =~= lv.skip(i + 1));
        }
        let t = trim_bytes(&lines[i]);
        let acc2: Option<Vec<u8>> = match acc {
            None => {
                if matches_at(&t, &kw, 0) {
                    let rest = vec_skip(&t, 15);
                    Some(rest)
                } else {
                    None
                }
            },
            Some(mut a) => {
                let mut t2 = t;
                let ghost aview = a@;
                let ghost tview = t2@;
                loop
                    invariant
                        a@ + t2@ =~= aview + tview,
                    decreases t2@.len(),
                {
                    if t2.len() == 0 {
                        break;
                    }
                    let x = t2.remove(0);
                    a.push(x);
                }
                proof {
                    assert(a@ =~= aview + tview);
                }
                Some(a)
            },
        };
        match acc2 {
            None => {
                acc = None;
            },
            Some(acc2) => {
                let opens = count_byte(&acc2, 91u8);
                let closes = count_byte(&acc2, 93u8);
                if opens >= 1 && closes >= opens {
                    match parse_string_list(&acc2) {
                        None => {
                            return None;
                        },
                        Some(items) => {
                            let ghost outview0 = out@.map_values(|v: Vec<u8>| v@);
                            let ghost itemsview = items@.map_values(|v: Vec<u8>| v@);
                            let mut items = items;
                            loop
                                invariant
                                    out@.map_values(|v: Vec<u8>| v@) + items@.map_values(
                                        |v: Vec<u8>| v@,
                                    ) =~= outview0 + itemsview,
                                decreases items@.len(),
                            {
                                if items.len() == 0 {
                                    break;
                                }
                                let x = items.remove(0);
                                out.push(x);
                                proof {
                                    assert(out@.map_values(|v: Vec<u8>| v@) + items@.map_values(
                                        |v: Vec<u8>| v@,
                                    ) =~= outview0 + itemsview);
                                }
                            }
                            proof {
                                assert(out@.map_values(|v: Vec<u8>| v@) =~= outview0 + itemsview);
                                assert(forall|x: Seq<Seq<u8>>|
                                    (outview0 + itemsview) + x =~= outview0 + (itemsview + x));
                            }
                            acc = None;
                        },
                    }
                } else {
                    acc = Some(acc2);
                }
            },
        }
        i += 1;
    }
    proof {
        assert(lv.skip(n as int).len() == 0);
    }
    match acc {
        None => {
            proof {
                assert(out@.map_values(|v: Vec<u8>| v@) + Seq::<Seq<u8>>::empty() =~= out@
                    .map_values(|v: Vec<u8>| v@));
            }
            Some(out)
        },
        Some(_) => None,
    }
}

/// First position of `c` in `s` at or after `i`, if any.
pub open spec fn spec_find_char(s: Seq<char>, c: char, i: int) -> Option<int>
    decreases s.len() - i,
        when 0 <= i <= s.len()
{
    if i >= s.len() {
        None
    } else if s[i] == c {
        Some(i)
    } else {
        spec_find_char(s, c, i + 1)
    }
}

/// Name before any `@version` suffix.
pub open spec fn spec_base_name(name: Seq<char>) -> Seq<char> {
    match spec_find_char(name, '@', 0) {
        Some(i) => name.take(i),
        None => name,
    }
}

/// Compute the base name of a package.
#[verifier::loop_isolation(false)]
pub fn base_name(name: &str) -> (r: String)
    ensures
        r@ == spec_base_name(name@),
{
    let n: usize = name.unicode_len();
    let mut i: usize = 0;
    while i < n && name.get_char(i) != '@'
        invariant
            i <= n,
            n == name@.len(),
            spec_find_char(name@, '@', 0) == spec_find_char(name@, '@', i as int),
        decreases n - i,
    {
        i += 1;
    }
    if i < n {
        let pre = name.substring_char(0, i);
        proof {
            assert(pre@ =~= name@.take(i as int));
        }
        String::from_str(pre)
    } else {
        proof {
            assert(spec_find_char(name@, '@', n as int) is None);
        }
        String::from_str(name)
    }
}

/// The linkable relative paths, in order: `share/<base>` and
/// `libexec/<base>` when present, the `bin` listing, the `lib`
/// listing minus its `pkgconfig` and `cmake` subdirectories, those
/// two listings themselves, the `include` listing, and finally the
/// manifest's override list.
pub open spec fn spec_link_paths(
    name: Seq<char>,
    has_share: bool,
    has_libexec: bool,
    bin: Seq<Seq<char>>,
    lib: Seq<Seq<char>>,
    pkgconfig: Seq<Seq<char>>,
    cmake: Seq<Seq<char>>,
    include_dir: Seq<Seq<char>>,
    overrides: Seq<Seq<char>>,
) -> Seq<Seq<char>> {
    let share_part: Seq<Seq<char>> = if has_share {
        seq!["share/"@ + spec_base_name(name)]
    } else {
        Seq::<Seq<char>>::empty()
    };
    let libexec_part: Seq<Seq<char>> = if has_libexec {
        seq!["libexec/"@ + spec_base_name(name)]
    } else {
        Seq::<Seq<char>>::empty()
    };
    let lib_part = lib.filter(|e: Seq<char>| e != "lib/pkgconfig"@ && e != "lib/cmake"@);
    share_part + libexec_part + bin + lib_part + pkgconfig + cmake + include_dir + overrides
}

/// Sequence-of-views shorthand for a vector of strings.
pub open spec fn views(v: Seq<String>) -> Seq<Seq<char>> {
    v.map_values(|s: String| s@)
}

proof fn lemma_string_filter_take_step(v: Seq<String>, pred: spec_fn(Seq<char>) -> bool, i: int)
    requires
        0 <= i < v.len(),
    ensures
        views(v.take(i + 1)).filter(pred) == if pred(v[i]@) {
            views(v.take(i)).filter(pred).push(v[i]@)
        } else {
            views(v.take(i)).filter(pred)
        },
{
    assert(views(v.take(i + 1)).drop_last() =~= views(v.take(i)));
    assert(views(v.take(i + 1)).last() == v[i]@);
    reveal_with_fuel(Seq::filter, 2);
}

/// Assemble the linkable paths of one package; see
/// [`spec_link_paths`].
#[verifier::loop_isolation(false)]
pub fn compute_link_paths(
    name: &str,
    has_share: bool,
    has_libexec: bool,
    bin: &Vec<String>,
    lib: &Vec<String>,
    pkgconfig: &Vec<String>,
    cmake: &Vec<String>,
    include_dir: &Vec<String>,
    overrides: &Vec<String>,
) -> (r: Vec<String>)
    ensures
        views(r@) == spec_link_paths(
            name@,
            has_share,
            has_libexec,
            views(bin@),
            views(lib@),
            views(pkgconfig@),
            views(cmake@),
            views(include_dir@),
            views(overrides@),
        ),
{
    let base = base_name(name);
    let mut out: Vec<String> = Vec::new();
    if has_share {
        let mut s = String::from_str("share/");
        s.append(base.as_str());
        out.push(s);
    }
    if has_libexec {
        let mut s = String::from_str("libexec/");
        s.append(base.as_str());
        out.push(s);
    }
    let ghost head = views(out@);
    push_all(&mut out, bin);
    let ghost pred = |e: Seq<char>| e != "lib/pkgconfig"@ && e != "lib/cmake"@;
    let nlib: usize = lib.len();
    let ghost before_lib = views(out@);
    let mut i: usize = 0;
    while i < nlib
        invariant
            i <= nlib,
            nlib == lib@.len(),
            views(out@) == before_lib + views(lib@.take(i as int)).filter(pred),
        decreases nlib - i,
    {
        let keep = !crate::text::str_eq(lib[i].as_str(), "lib/pkgconfig") && !crate::text::str_eq(
            lib[i].as_str(),
            "lib/cmake",
        );
        proof {
            lemma_string_filter_take_step(lib@, pred, i as int);
        }
        if keep {
            let c = lib[i].clone();
            proof {
                assert(c == lib@[i as int]);
            }
            let ghost pre = out@;
            out.push(c);
            proof {
                assert(out@ == pre.push(c));
                assert(views(out@) =~= views(pre).push(c@));
                assert((before_lib + views(lib@.take(i as int)).filter(pred)).push(c@)
                    =~= before_lib + views(lib@.take(i as int)).filter(pred).push(c@));
                assert(views(out@) =~= before_lib + views(lib@.take(i + 1)).filter(pred));
            }
        }
        i += 1;
    }
    proof {
        assert(lib@.take(nlib as int) =~= lib@);
    }
    push_all(&mut out, pkgconfig);
    push_all(&mut out, cmake);
    push_all(&mut out, include_dir);
    push_all(&mut out, overrides);
    proof {
        assert(views(out@) =~= spec_link_paths(
            name@,
            has_share,
            has_libexec,
            views(bin@),
            views(lib@),
            views(pkgconfig@),
            views(cmake@),
            views(include_dir@),
            views(overrides@),
        ));
    }
    out
}

/// Append clones of all of `src` to `dst`.
#[verifier::loop_isolation(false)]
fn push_all(dst: &mut Vec<String>, src: &Vec<String>)
    ensures
        final(dst)@.len() == old(dst)@.len() + src@.len(),
        views(final(dst)@) == views(old(dst)@) + views(src@),
{
    let ghost d0 = dst@;
    let n: usize = src.len();
    let mut i: usize = 0;
    while i < n
        invariant
            i <= n,
            n == src@.len(),
            dst@.len() == d0.len() + i,
            views(dst@) == views(d0) + views(src@.take(i as int)),
        decreases n - i,
    {
        let c = src[i].clone();
        proof {
            assert(c == src@[i as int]);
        }
        let ghost pre = dst@;
        dst.push(c);
        proof {
            assert(dst@ == pre.push(c));
            assert(views(dst@) =~= views(pre).push(c@));
            assert(src@.take(i + 1).drop_last() =~= src@.take(i as int));
            assert(views(src@.take(i + 1)) =~= views(src@.take(i as int)).push(src@[i as int]@));
            assert((views(d0) + views(src@.take(i as int))).push(c@) =~= views(d0) + views(
                src@.take(i + 1),
            ));
        }
        i += 1;
    }
    proof {
        assert(src@.take(n as int) =~= src@);
    }
}

/// What happened when one link was created outside the library.
#[derive(Debug, Clone, Copy, PartialEq, Eq, Structural)]
pub enum LinkEvent {
    /// The source does not exist under the cellar: logged, skipped.
    SourceMissing,
    /// Symlink created; the target is a directory.
    LinkedDir,
    /// Symlink created; the target is a file.
    LinkedFile,
    /// Creating the symlink failed.
    Failed,
}

/// The recorded links for the outcomes seen so far: created directory
/// links carry a trailing `/`, created file links are recorded as
/// they are, missing sources are skipped.
pub open spec fn spec_links_list(links: Seq<String>, events: Seq<LinkEvent>) -> Seq<Seq<char>>
    decreases events.len(),
{
    if events.len() == 0 || links.len() != events.len() {
        Seq::<Seq<char>>::empty()
    } else {
        let init = spec_links_list(links.drop_last(), events.drop_last());
        match events.last() {
            LinkEvent::LinkedDir => init.push(links.last()@ + "/"@),
            LinkEvent::LinkedFile => init.push(links.last()@),
            _ => init,
        }
    }
}

/// Relation between a package before and after the link stage, given
/// the computed link paths and the per-link outcomes.
pub open spec fn linked_rel(
    p: Package,
    links: Seq<String>,
    events: Seq<LinkEvent>,
    q: Package,
) -> bool {
    if !(p.stage == Stage::Relocated && p.spec_active()) {
        q == p
    } else if exists|i: int| 0 <= i < events.len() && (#[trigger] events[i]) is Failed {
        let first = choose|i: int|
            0 <= i < events.len() && (#[trigger] events[i]) is Failed && (forall|j: int|
                0 <= j < i ==> !((#[trigger] events[j]) is Failed));
        &&& keeps_rest_link(p, q)
        &&& q.stage == p.stage
        &&& views(q.links@) == spec_links_list(links.take(first), events.take(first))
        &&& q.errors@.len() == p.errors@.len() + 1
        &&& q.errors@.subrange(0, p.errors@.len() as int) == p.errors@
        &&& (q.errors@.last() matches Error::LinkFailed { package, link } && package@ == p.name@
            && link@ == links[first]@)
    } else {
        &&& keeps_rest_link(p, q)
        &&& q.stage == Stage::Linked
        &&& views(q.links@) == spec_links_list(links, events)
        &&& q.errors@ == p.errors@
    }
}

/// Fields the link stage never touches.
pub open spec fn keeps_rest_link(p: Package, q: Package) -> bool {
    &&& q.name == p.name
    &&& q.full_name == p.full_name
    &&& q.version == p.version
    &&& q.revision == p.revision
    &&& q.arch == p.arch
    &&& q.url == p.url
    &&& q.sha256 == p.sha256
    &&& q.relocate == p.relocate
    &&& q.rebuild == p.rebuild
    &&& q.size == p.size
    &&& q.download_size == p.download_size
    &&& q.package_name == p.package_name
    &&& q.keg == p.keg
    &&& q.files == p.files
    &&& q.explicit == p.explicit
    &&& q.required_by == p.required_by
    &&& q.patched_binaries == p.patched_binaries
    &&& q.patched_text == p.patched_text
}

/// Record the outcome of linking one package: the links that were
/// created, or the first failure.
#[verifier::loop_isolation(false)]
pub fn link_one(p: Package, links: &Vec<String>, events: &Vec<LinkEvent>) -> (q: Package)
    requires
        links@.len() == events@.len(),
    ensures
        linked_rel(p, links@, events@, q),
{
    let mut p = p;
    if !(matches!(p.stage, Stage::Relocated) && p.active()) {
        return p;
    }
    let ghost p0 = p;
    let n: usize = events.len();
    let mut created: Vec<String> = Vec::new();
    let mut i: usize = 0;
    while i < n
        invariant
            i <= n,
            n == events@.len(),
            n == links@.len(),
            p == p0,
            forall|j: int| 0 <= j < i ==> !((#[trigger] events@[j]) is Failed),
            views(created@) == spec_links_list(links@.take(i as int), events@.take(i as int)),
        decreases n - i,
    {
        proof {
            assert(links@.take(i + 1).drop_last() =~= links@.take(i as int));
            assert(events@.take(i + 1).drop_last() =~= events@.take(i as int));
        }
        match events[i] {
            LinkEvent::SourceMissing => {},
            LinkEvent::LinkedDir => {
                let mut s = links[i].clone();
                s.append("/");
                created.push(s);
                proof {
                    assert(views(created@) =~= spec_links_list(
                        links@.take(i + 1),
                        events@.take(i + 1),
                    ));
                }
            },
            LinkEvent::LinkedFile => {
                created.push(links[i].clone());
                proof {
                    assert(views(created@) =~= spec_links_list(
                        links@.take(i + 1),
                        events@.take(i + 1),
                    ));
                }
            },
            LinkEvent::Failed => {
                let ghost e0 = p.errors@;
                let e = Error::LinkFailed { package: p.name.clone(), link: links[i].clone() };
                p.errors.push(e);
                p.links = created;
                proof {
                    assert(p.errors@.subrange(0, e0.len() as int) =~= e0);
                    assert(exists|k: int|
                        0 <= k < events@.len() && (#[trigger] events@[k]) is Failed && (forall|
                            j: int,
                        |
                            0 <= j < k ==> !((#[trigger] events@[j]) is Failed))) by {
                        assert((events@[i as int]) is Failed && (forall|j: int|
                            0 <= j < i as int ==> !((#[trigger] events@[j]) is Failed)));
                    }
                    let first = choose|k: int|
                        0 <= k < events@.len() && (#[trigger] events@[k]) is Failed && (forall|
                            j: int,
                        |
                            0 <= j < k ==> !((#[trigger] events@[j]) is Failed));
                    assert(first == i as int) by {
                        if first < i as int {
                            assert(!((events@[first]) is Failed));
                        }
                        if first > i as int {
                            assert(!((events@[i as int]) is Failed));
                        }
                    }
                }
                return p;
            },
        }
        i += 1;
    }
    proof {
        assert(links@.take(n as int) =~= links@);
        assert(events@.take(n as int) =~= events@);
    }
    p.links = created;
    p.stage = Stage::Linked;
    p
}

/// Stage driver: record link outcomes across the whole registry, one
/// `(paths, outcomes)` pair per package, in registry order.
pub struct LinkPackages {
    /// Failures of this stage live on the packages themselves.
    pub errors: Vec<Error>,
}

impl LinkPackages {
    pub fn run(
        &mut self,
        reg: &mut PackageRegistry,
        links: &Vec<Vec<String>>,
        events: &Vec<Vec<LinkEvent>>,
    )
        requires
            old(reg).wf(),
            links@.len() == old(reg)@.len(),
            events@.len() == old(reg)@.len(),
            forall|i: int|
                0 <= i < old(reg)@.len() ==> (#[trigger] links@[i])@.len() == events@[i]@.len(),
        ensures
            final(reg).wf(),
            final(reg)@.len() == old(reg)@.len(),
            forall|i: int|
                0 <= i < old(reg)@.len() ==> linked_rel(
                    old(reg)@[i],
                    links@[i]@,
                    events@[i]@,
                    #[trigger] final(reg)@[i],
                ),
            *final(self) == *old(self),
    {
        let n: usize = reg.packages.len();
        let ghost reg0 = reg@;
        let mut i: usize = 0;
        while i < n
            invariant
                i <= n,
                n == reg@.len(),
                reg0.len() == n,
                links@.len() == n,
                events@.len() == n,
                forall|j: int| 0 <= j < n ==> (#[trigger] links@[j])@.len() == events@[j]@.len(),
                forall|j: int| i <= j < n ==> reg@[j] == reg0[j],
                forall|j: int|
                    0 <= j < i ==> linked_rel(reg0[j], links@[j]@, events@[j]@, #[trigger] reg@[j]),
                forall|j: int| 0 <= j < n ==> (#[trigger] reg@[j]).name@ == reg0[j].name@,
            decreases n - i,
        {
            let ghost before = reg@;
            let p = reg.packages.remove(i);
            let q = link_one(p, &links[i], &events[i]);
            reg.packages.insert(i, q);
            proof {
                assert(reg@ =~= before.update(i as int, q));
                assert(linked_rel(reg0[i as int], links@[i as int]@, events@[i as int]@, q));
                assert(q.name@ == reg0[i as int].name@);
            }
            i += 1;
        }
        proof {
            assert forall|a: int, b: int| 0 <= a < b < reg@.len() implies reg@[a].name@
                != reg@[b].name@ by {
                assert(reg0[a].name@ != reg0[b].name@);
            }
            assert(reg.wf());
        }
    }
}


/// The link stage only moves a package forward in the stage order.
pub proof fn lemma_link_stage_monotone(
    p: Package,
    links: Seq<String>,
    events: Seq<LinkEvent>,
    q: Package,
)
    requires
        linked_rel(p, links, events, q),
    ensures
        p.stage.rank() <= q.stage.rank(),
{
}

} // verus!
