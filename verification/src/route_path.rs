//! The route paths that axum's router accepts for a proxied subtree, and when
//! two of them overlap.
//!
//! A route path here is a `/`-separated list of segments, each static text
//! optionally ending in a capture `{name}` (so `{id}` and `v{id}` both are
//! segments). axum rejects a segment that starts with `:` or `*`, and its
//! router (matchit) rejects unbalanced braces, an empty or ill-formed capture
//! name, text after a capture within its segment, and more than 25 captures.
//! Two routes clash when they are equal once capture names are erased, or when
//! one is a catch-all (`.../{*rest}`) at a position where the other has a
//! capture. Escaped braces (`{{`, `}}`) are not admitted.

use vstd::prelude::*;

verus! {

/// Where a left-to-right scan of a route path stands.
#[derive(Debug, Clone, Copy, PartialEq, Eq)]
pub enum ScanState {
    /// Right after a `/`.
    SegStart,
    /// Inside the static text of a segment.
    Static,
    /// Right after the `{` that opens a capture.
    CaptureOpen,
    /// Inside a capture's name.
    CaptureName,
    /// Right after the `}` that closes a capture.
    CaptureClosed,
}

/// One step of the scan; `None` where the character makes the path invalid.
pub open spec fn scan_step(st: ScanState, c: char) -> Option<ScanState> {
    match st {
        ScanState::SegStart => if c == '/' {
            Some(ScanState::SegStart)
        } else if c == '{' {
            Some(ScanState::CaptureOpen)
        } else if c == '}' || c == ':' || c == '*' {
            None
        } else {
            Some(ScanState::Static)
        },
        ScanState::Static => if c == '/' {
            Some(ScanState::SegStart)
        } else if c == '{' {
            Some(ScanState::CaptureOpen)
        } else if c == '}' {
            None
        } else {
            Some(ScanState::Static)
        },
        ScanState::CaptureOpen => if c == '{' || c == '}' || c == '*' || c == '/' {
            None
        } else {
            Some(ScanState::CaptureName)
        },
        ScanState::CaptureName => if c == '}' {
            Some(ScanState::CaptureClosed)
        } else if c == '{' || c == '*' || c == '/' {
            None
        } else {
            Some(ScanState::CaptureName)
        },
        ScanState::CaptureClosed => if c == '/' {
            Some(ScanState::SegStart)
        } else {
            None
        },
    }
}

/// Whether the scan of `s` from `st` ends outside an open capture.
pub open spec fn scan_ok(s: Seq<char>, st: ScanState) -> bool
    decreases s.len(),
{
    if s.len() == 0 {
        !(st is CaptureOpen || st is CaptureName)
    } else {
        match scan_step(st, s[0]) {
            Some(next) => scan_ok(s.drop_first(), next),
            None => false,
        }
    }
}

/// How often `c` occurs in `s`.
pub open spec fn count_char(s: Seq<char>, c: char) -> nat
    decreases s.len(),
{
    if s.len() == 0 {
        0
    } else {
        (if s[0] == c {
            1nat
        } else {
            0nat
        }) + count_char(s.drop_first(), c)
    }
}

/// A route path that axum accepts as the base of a proxied subtree: it starts
/// with `/`; each segment is static text without braces, not starting with `:`
/// or `*`, optionally ending in a capture `{name}` (a non-empty name without
/// `{`, `}`, `*` or `/`); and it holds at most 25 captures.
pub open spec fn valid_base(b: Seq<char>) -> bool {
    &&& b.len() > 0
    &&& b[0] == '/'
    &&& scan_ok(b.drop_first(), ScanState::SegStart)
    &&& count_char(b, '{') <= 25
}

/// `s` with the names of its captures erased, from a scan position inside a
/// capture's braces or not.
pub open spec fn erase_from(s: Seq<char>, inside: bool) -> Seq<char>
    decreases s.len(),
{
    if s.len() == 0 {
        s
    } else if inside {
        if s[0] == '}' {
            seq!['}'] + erase_from(s.drop_first(), false)
        } else {
            erase_from(s.drop_first(), true)
        }
    } else if s[0] == '{' {
        seq!['{'] + erase_from(s.drop_first(), true)
    } else {
        seq![s[0]] + erase_from(s.drop_first(), false)
    }
}

/// `s` with the names of its captures erased (every `{name}` becomes `{}`).
pub open spec fn erased(s: Seq<char>) -> Seq<char> {
    erase_from(s, false)
}

/// `m` continues `n` with a further segment that is a capture.
pub open spec fn extends_with_capture(n: Seq<char>, m: Seq<char>) -> bool {
    &&& m.len() >= n.len() + 2
    &&& m.take(n.len() as int) == n
    &&& m[n.len() as int] == '/'
    &&& m[n.len() + 1int] == '{'
}

/// Whether the subtrees at bases `b` and `c` overlap: their routes (`b`,
/// `b/{*rest}`, `c`, `c/{*rest}`) clash in axum's router. That is so when the
/// bases are equal once capture names are erased, or when one continues the
/// other with a capture segment (which clashes with the other's catch-all).
pub open spec fn bases_overlap(b: Seq<char>, c: Seq<char>) -> bool {
    ||| erased(b) == erased(c)
    ||| extends_with_capture(erased(b), erased(c))
    ||| extends_with_capture(erased(c), erased(b))
}

/// One step of the scan.
fn scan_step_exec(st: ScanState, c: char) -> (r: Option<ScanState>)
    ensures
        r == scan_step(st, c),
{
    match st {
        ScanState::SegStart => if c == '/' {
            Some(ScanState::SegStart)
        } else if c == '{' {
            Some(ScanState::CaptureOpen)
        } else if c == '}' || c == ':' || c == '*' {
            None
        } else {
            Some(ScanState::Static)
        },
        ScanState::Static => if c == '/' {
            Some(ScanState::SegStart)
        } else if c == '{' {
            Some(ScanState::CaptureOpen)
        } else if c == '}' {
            None
        } else {
            Some(ScanState::Static)
        },
        ScanState::CaptureOpen => if c == '{' || c == '}' || c == '*' || c == '/' {
            None
        } else {
            Some(ScanState::CaptureName)
        },
        ScanState::CaptureName => if c == '}' {
            Some(ScanState::CaptureClosed)
        } else if c == '{' || c == '*' || c == '/' {
            None
        } else {
            Some(ScanState::CaptureName)
        },
        ScanState::CaptureClosed => if c == '/' {
            Some(ScanState::SegStart)
        } else {
            None
        },
    }
}

/// Whether `b` is a valid subtree base.
pub fn valid_base_check(b: &str) -> (r: bool)
    ensures
        r == valid_base(b@),
{
    let n = b.unicode_len();
    if n == 0 || b.get_char(0) != '/' {
        return false;
    }
    let ghost s = b@;
    proof {
        assert(s.skip(1) =~= s.drop_first());
    }
    let mut st = ScanState::SegStart;
    let mut count: usize = 0;
    let mut i: usize = 1;
    while i < n
        invariant
            n == s.len(),
            s == b@,
            1 <= i <= n,
            s[0] == '/',
            scan_ok(s.drop_first(), ScanState::SegStart) == scan_ok(s.skip(i as int), st),
            count_char(s, '{') == count + count_char(s.skip(i as int), '{'),
            count <= i,
        decreases n - i,
    {
        let c = b.get_char(i);
        proof {
            assert(s.skip(i as int)[0] == c);
            assert(s.skip(i as int).drop_first() =~= s.skip(i + 1));
        }
        match scan_step_exec(st, c) {
            None => {
                return false;
            },
            Some(next) => {
                st = next;
            },
        }
        if c == '{' {
            count = count + 1;
        }
        i = i + 1;
    }
    proof {
        assert(s.skip(n as int) =~= Seq::<char>::empty());
    }
    let open = match st {
        ScanState::CaptureOpen => true,
        ScanState::CaptureName => true,
        _ => false,
    };
    !open && count <= 25
}

/// `s` with the names of its captures erased.
pub fn erase_captures(s: &str) -> (r: Vec<char>)
    ensures
        r@ == erased(s@),
{
    let n = s.unicode_len();
    let mut r: Vec<char> = Vec::new();
    let mut inside = false;
    let mut i: usize = 0;
    proof {
        assert(s@.skip(0) =~= s@);
    }
    while i < n
        invariant
            n == s@.len(),
            i <= n,
            r@ + erase_from(s@.skip(i as int), inside) == erased(s@),
        decreases n - i,
    {
        let c = s.get_char(i);
        let ghost rest = s@.skip(i as int);
        proof {
            assert(rest[0] == c);
            assert(rest.drop_first() =~= s@.skip(i + 1));
        }
        if inside {
            if c == '}' {
                r.push(c);
                inside = false;
                proof {
                    assert(r@ + erase_from(s@.skip(i + 1), false) =~= r@.drop_last() + (seq!['}']
                        + erase_from(rest.drop_first(), false)));
                }
            }
        } else if c == '{' {
            r.push(c);
            inside = true;
            proof {
                assert(r@ + erase_from(s@.skip(i + 1), true) =~= r@.drop_last() + (seq!['{']
                    + erase_from(rest.drop_first(), true)));
            }
        } else {
            r.push(c);
            proof {
                assert(r@ + erase_from(s@.skip(i + 1), false) =~= r@.drop_last() + (seq![c]
                    + erase_from(rest.drop_first(), false)));
            }
        }
        i = i + 1;
    }
    proof {
        assert(s@.skip(n as int) =~= Seq::<char>::empty());
        assert(r@ + Seq::<char>::empty() =~= r@);
    }
    r
}

/// Character-wise equality of two character lists.
fn chars_eq(a: &Vec<char>, b: &Vec<char>) -> (r: bool)
    ensures
        r == (a@ == b@),
{
    if a.len() != b.len() {
        return false;
    }
    let n = a.len();
    let mut i: usize = 0;
    while i < n
        invariant
            n == a@.len(),
            n == b@.len(),
            i <= n,
            forall|j: int| 0 <= j < i ==> a@[j] == b@[j],
        decreases n - i,
    {
        if a[i] != b[i] {
            return false;
        }
        i = i + 1;
    }
    proof {
        assert(a@ =~= b@);
    }
    true
}

/// Whether `m` continues `n` with a further capture segment.
fn extends_with_capture_check(n: &Vec<char>, m: &Vec<char>) -> (r: bool)
    ensures
        r == extends_with_capture(n@, m@),
{
    let k = n.len();
    if m.len() < k || m.len() - k < 2 {
        return false;
    }
    let mut i: usize = 0;
    while i < k
        invariant
            k == n@.len(),
            m@.len() >= k + 2,
            i <= k,
            forall|j: int| 0 <= j < i ==> m@[j] == n@[j],
        decreases k - i,
    {
        if m[i] != n[i] {
            proof {
                assert(m@.take(k as int)[i as int] != n@[i as int]);
            }
            return false;
        }
        i = i + 1;
    }
    proof {
        assert(m@.take(k as int) =~= n@);
    }
    m[k] == '/' && m[k + 1] == '{'
}

/// Whether the subtrees at `b` and `c` overlap.
pub fn bases_overlap_check(b: &str, c: &str) -> (r: bool)
    ensures
        r == bases_overlap(b@, c@),
{
    let nb = erase_captures(b);
    let nc = erase_captures(c);
    chars_eq(&nb, &nc) || extends_with_capture_check(&nb, &nc) || extends_with_capture_check(
        &nc,
        &nb,
    )
}

/// A character that may stand anywhere in a route's static text (and in a
/// capture's name): an ASCII letter or digit, `-`, `_` or `.`.
pub open spec fn plain_char(c: char) -> bool {
    ||| 'a' <= c <= 'z'
    ||| 'A' <= c <= 'Z'
    ||| '0' <= c <= '9'
    ||| c == '-'
    ||| c == '_'
    ||| c == '.'
}

/// A path of static segments only: `/` followed by plain characters and `/`.
pub open spec fn plain_path(p: Seq<char>) -> bool {
    &&& p.len() > 0
    &&& p[0] == '/'
    &&& forall|i: int| 1 <= i < p.len() ==> plain_char(#[trigger] p[i]) || p[i] == '/'
}

/// Where the scan of `s` from `st` ends, or `None` where it rejects `s`.
pub open spec fn scan_end(s: Seq<char>, st: ScanState) -> Option<ScanState>
    decreases s.len(),
{
    if s.len() == 0 {
        Some(st)
    } else {
        match scan_step(st, s[0]) {
            Some(next) => scan_end(s.drop_first(), next),
            None => None,
        }
    }
}

proof fn lemma_scan_ok_end(s: Seq<char>, st: ScanState)
    ensures
        scan_ok(s, st) == (scan_end(s, st) matches Some(e) && !(e is CaptureOpen
            || e is CaptureName)),
    decreases s.len(),
{
    if s.len() > 0 {
        if let Some(next) = scan_step(st, s[0]) {
            lemma_scan_ok_end(s.drop_first(), next);
        }
    }
}

proof fn lemma_scan_end_concat(a: Seq<char>, b: Seq<char>, st: ScanState)
    ensures
        scan_end(a + b, st) == (match scan_end(a, st) {
            Some(m) => scan_end(b, m),
            None => None,
        }),
    decreases a.len(),
{
    if a.len() == 0 {
        assert(a + b =~= b);
    } else {
        assert((a + b)[0] == a[0]);
        assert((a + b).drop_first() =~= a.drop_first() + b);
        if let Some(next) = scan_step(st, a[0]) {
            lemma_scan_end_concat(a.drop_first(), b, next);
        }
    }
}

/// Plain characters and `/` keep a scan outside captures.
proof fn lemma_scan_plain(s: Seq<char>, st: ScanState)
    requires
        st is SegStart || st is Static,
        forall|i: int| 0 <= i < s.len() ==> plain_char(#[trigger] s[i]) || s[i] == '/',
    ensures
        scan_end(s, st) matches Some(e) && (e is SegStart || e is Static),
    decreases s.len(),
{
    if s.len() > 0 {
        let next = if s[0] == '/' {
            ScanState::SegStart
        } else {
            ScanState::Static
        };
        assert(scan_step(st, s[0]) == Some(next));
        assert forall|i: int| 0 <= i < s.drop_first().len() implies plain_char(
            #[trigger] s.drop_first()[i],
        ) || s.drop_first()[i] == '/' by {
            assert(s.drop_first()[i] == s[i + 1]);
        }
        lemma_scan_plain(s.drop_first(), next);
    }
}

/// A plain capture name keeps a scan inside the capture's name.
proof fn lemma_scan_name(s: Seq<char>)
    requires
        forall|i: int| 0 <= i < s.len() ==> plain_char(#[trigger] s[i]),
    ensures
        scan_end(s, ScanState::CaptureName) == Some(ScanState::CaptureName),
    decreases s.len(),
{
    if s.len() > 0 {
        assert(plain_char(s[0]));
        assert forall|i: int| 0 <= i < s.drop_first().len() implies plain_char(
            #[trigger] s.drop_first()[i],
        ) by {
            assert(s.drop_first()[i] == s[i + 1]);
        }
        lemma_scan_name(s.drop_first());
    }
}

proof fn lemma_count_concat(a: Seq<char>, b: Seq<char>, c: char)
    ensures
        count_char(a + b, c) == count_char(a, c) + count_char(b, c),
    decreases a.len(),
{
    if a.len() == 0 {
        assert(a + b =~= b);
    } else {
        assert((a + b)[0] == a[0]);
        assert((a + b).drop_first() =~= a.drop_first() + b);
        lemma_count_concat(a.drop_first(), b, c);
    }
}

proof fn lemma_count_absent(s: Seq<char>, c: char)
    requires
        !s.contains(c),
    ensures
        count_char(s, c) == 0,
    decreases s.len(),
{
    if s.len() > 0 {
        assert(s[0] != c);
        assert forall|i: int| 0 <= i < s.drop_first().len() implies s.drop_first()[i] != c by {
            assert(s.drop_first()[i] == s[i + 1]);
        }
        lemma_count_absent(s.drop_first(), c);
    }
}

proof fn lemma_plain_has_no_brace(s: Seq<char>)
    requires
        forall|i: int| 0 <= i < s.len() ==> plain_char(#[trigger] s[i]) || s[i] == '/',
    ensures
        !s.contains('{'),
        count_char(s, '{') == 0,
{
    if s.contains('{') {
        let i = choose|i: int| 0 <= i < s.len() && s[i] == '{';
        assert(plain_char(s[i]) || s[i] == '/');
    }
    lemma_count_absent(s, '{');
}

/// Every path of static segments is a valid base: `/` followed by ASCII
/// letters, digits, `-`, `_`, `.` and `/` (as `/api/v1` or `/static/app-2.x`).
pub proof fn lemma_plain_path_valid(p: Seq<char>)
    requires
        plain_path(p),
    ensures
        valid_base(p),
{
    let rest = p.drop_first();
    assert forall|i: int| 0 <= i < rest.len() implies plain_char(#[trigger] rest[i]) || rest[i]
        == '/' by {
        assert(rest[i] == p[i + 1]);
    }
    lemma_scan_plain(rest, ScanState::SegStart);
    lemma_scan_ok_end(rest, ScanState::SegStart);
    assert forall|i: int| 0 <= i < p.len() implies plain_char(#[trigger] p[i]) || p[i] == '/' by {}
    lemma_plain_has_no_brace(p);
}

/// A valid base stays valid when it is continued with further static
/// segments: `/` followed by ASCII letters, digits, `-`, `_`, `.` and `/`.
pub proof fn lemma_extend_static(b: Seq<char>, s: Seq<char>)
    requires
        valid_base(b),
        s.len() > 0,
        s[0] == '/',
        forall|i: int| 0 <= i < s.len() ==> plain_char(#[trigger] s[i]) || s[i] == '/',
    ensures
        valid_base(b + s),
{
    let bs = b + s;
    let rb = b.drop_first();
    assert(bs[0] == b[0]);
    assert(bs.drop_first() =~= rb + s);
    lemma_scan_ok_end(rb, ScanState::SegStart);
    let e = scan_end(rb, ScanState::SegStart)->Some_0;
    assert(scan_step(e, '/') == Some(ScanState::SegStart));
    assert forall|i: int| 0 <= i < s.drop_first().len() implies plain_char(
        #[trigger] s.drop_first()[i],
    ) || s.drop_first()[i] == '/' by {
        assert(s.drop_first()[i] == s[i + 1]);
    }
    lemma_scan_plain(s.drop_first(), ScanState::SegStart);
    assert(scan_end(s, e) == scan_end(s.drop_first(), ScanState::SegStart));
    lemma_scan_end_concat(rb, s, ScanState::SegStart);
    lemma_scan_ok_end(rb + s, ScanState::SegStart);
    lemma_plain_has_no_brace(s);
    lemma_count_concat(b, s, '{');
}

/// A valid base with fewer than 25 captures stays valid when it is continued
/// with a capture segment `/{name}` whose name is a non-empty run of ASCII
/// letters, digits, `-`, `_` and `.`.
pub proof fn lemma_extend_capture(b: Seq<char>, name: Seq<char>)
    requires
        valid_base(b),
        count_char(b, '{') < 25,
        name.len() > 0,
        forall|i: int| 0 <= i < name.len() ==> plain_char(#[trigger] name[i]),
    ensures
        valid_base(b + (seq!['/', '{'] + name + seq!['}'])),
{
    let s = seq!['/', '{'] + name + seq!['}'];
    let bs = b + s;
    let rb = b.drop_first();
    assert(bs[0] == b[0]);
    assert(bs.drop_first() =~= rb + s);
    lemma_scan_ok_end(rb, ScanState::SegStart);
    let e = scan_end(rb, ScanState::SegStart)->Some_0;
    assert(scan_step(e, '/') == Some(ScanState::SegStart));
    assert(plain_char(name[0]));
    lemma_scan_name(name.drop_first());
    let tail = name.drop_first() + seq!['}'];
    lemma_scan_end_concat(name.drop_first(), seq!['}'], ScanState::CaptureName);
    let one = seq!['}'];
    assert(one[0] == '}');
    assert(one.drop_first() =~= Seq::<char>::empty());
    assert(scan_end(one.drop_first(), ScanState::CaptureClosed) == Some(ScanState::CaptureClosed));
    assert(scan_end(one, ScanState::CaptureName) == Some(ScanState::CaptureClosed));
    let s1 = s.drop_first();
    let s2 = s1.drop_first();
    assert(s[0] == '/');
    assert(s1[0] == '{');
    assert(s2[0] == name[0]);
    assert(s2.drop_first() =~= tail);
    assert(scan_end(tail, ScanState::CaptureName) == Some(ScanState::CaptureClosed));
    assert(scan_end(s2, ScanState::CaptureOpen) == Some(ScanState::CaptureClosed));
    assert(scan_end(s1, ScanState::SegStart) == Some(ScanState::CaptureClosed));
    assert(scan_end(s, e) == Some(ScanState::CaptureClosed));
    lemma_scan_end_concat(rb, s, ScanState::SegStart);
    lemma_scan_ok_end(rb + s, ScanState::SegStart);
    lemma_count_concat(b, s, '{');
    lemma_count_concat(seq!['/', '{'] + name, seq!['}'], '{');
    lemma_count_concat(seq!['/', '{'], name, '{');
    assert forall|i: int| 0 <= i < name.len() implies plain_char(#[trigger] name[i]) || name[i]
        == '/' by {}
    lemma_plain_has_no_brace(name);
    assert(count_char(one.drop_first(), '{') == 0);
    assert(count_char(one, '{') == 0);
    let open = seq!['/', '{'];
    let brace = seq!['{'];
    assert(open[0] == '/');
    assert(open.drop_first() =~= brace);
    assert(brace[0] == '{');
    assert(brace.drop_first() =~= Seq::<char>::empty());
    assert(count_char(brace.drop_first(), '{') == 0);
    assert(count_char(brace, '{') == 1);
    assert(count_char(open, '{') == 1);
}

proof fn lemma_erased_without_captures(s: Seq<char>)
    requires
        !s.contains('{'),
    ensures
        erased(s) == s,
    decreases s.len(),
{
    if s.len() > 0 {
        assert(s[0] != '{');
        assert forall|i: int| 0 <= i < s.drop_first().len() implies s.drop_first()[i] != '{' by {
            assert(s.drop_first()[i] == s[i + 1]);
        }
        lemma_erased_without_captures(s.drop_first());
        assert(seq![s[0]] + s.drop_first() =~= s);
    }
}

/// Bases without captures overlap exactly when they are equal: distinct static
/// subtrees never clash, however much they share (`/api` and `/admin/api`,
/// `/a` and `/a/b`, `/a` and `/ab`).
pub proof fn lemma_static_bases_overlap(b: Seq<char>, c: Seq<char>)
    requires
        !b.contains('{'),
        !c.contains('{'),
    ensures
        bases_overlap(b, c) <==> b == c,
{
    lemma_erased_without_captures(b);
    lemma_erased_without_captures(c);
    if extends_with_capture(b, c) {
        assert(c[b.len() + 1int] == '{');
    }
    if extends_with_capture(c, b) {
        assert(b[c.len() + 1int] == '{');
    }
}

/// Overlap is symmetric, every base overlaps itself, and renaming a capture
/// changes nothing about what a base overlaps.
pub proof fn lemma_overlap_symmetric(b: Seq<char>, c: Seq<char>, d: Seq<char>)
    ensures
        bases_overlap(b, c) == bases_overlap(c, b),
        bases_overlap(b, b),
        erased(c) == erased(d) ==> bases_overlap(b, c) == bases_overlap(b, d),
{
}

/// What the scan of `s` from `st` has checked, whatever it met: what may
/// follow the state it starts in, that no segment starts with `:` or `*`, that
/// every `{` opens a non-empty capture that is not a catch-all, and that every
/// `}` ends its segment.
pub open spec fn scanned_shape(s: Seq<char>, st: ScanState) -> bool {
    &&& st is SegStart && s.len() > 0 ==> s[0] != ':' && s[0] != '*'
    &&& st is CaptureOpen ==> s.len() > 0 && s[0] != '}' && s[0] != '*'
    &&& st is CaptureClosed ==> s.len() == 0 || s[0] == '/'
    &&& forall|k: int|
        0 <= k < s.len() - 1 && #[trigger] s[k] == '/' ==> s[k + 1] != ':' && s[k + 1] != '*'
    &&& forall|k: int|
        0 <= k < s.len() && #[trigger] s[k] == '{' ==> k + 1 < s.len() && s[k + 1] != '}' && s[k
            + 1] != '*'
    &&& forall|k: int|
        0 <= k < s.len() && #[trigger] s[k] == '}' ==> k + 1 == s.len() || s[k + 1] == '/'
}

proof fn lemma_scan_shape(s: Seq<char>, st: ScanState)
    requires
        scan_ok(s, st),
    ensures
        scanned_shape(s, st),
    decreases s.len(),
{
    if s.len() > 0 {
        let next = scan_step(st, s[0])->Some_0;
        let t = s.drop_first();
        lemma_scan_shape(t, next);
        assert forall|k: int| 0 <= k < s.len() - 1 && #[trigger] s[k] == '/' implies s[k + 1] != ':'
            && s[k + 1] != '*' by {
            if k > 0 {
                assert(t[k - 1] == s[k]);
            }
        }
        assert forall|k: int| 0 <= k < s.len() && #[trigger] s[k] == '{' implies k + 1 < s.len()
            && s[k + 1] != '}' && s[k + 1] != '*' by {
            if k > 0 {
                assert(t[k - 1] == s[k]);
            }
        }
        assert forall|k: int| 0 <= k < s.len() && #[trigger] s[k] == '}' implies k + 1 == s.len()
            || s[k + 1] == '/' by {
            if k > 0 {
                assert(t[k - 1] == s[k]);
            }
        }
    }
}

/// What a valid base rules out, as axum and its router reject it: it starts
/// with `/`; no segment starts with `:` or `*`; every `{` opens a capture with
/// a non-empty name that is not a catch-all; every `}` ends its segment; and it
/// holds at most 25 captures.
pub proof fn lemma_valid_base_shape(b: Seq<char>)
    requires
        valid_base(b),
    ensures
        b.len() > 0 && b[0] == '/',
        forall|k: int|
            0 <= k < b.len() - 1 && #[trigger] b[k] == '/' ==> b[k + 1] != ':' && b[k + 1] != '*',
        forall|k: int|
            0 <= k < b.len() && #[trigger] b[k] == '{' ==> k + 1 < b.len() && b[k + 1] != '}' && b[k
                + 1] != '*',
        forall|k: int| 0 <= k < b.len() && #[trigger] b[k] == '}' ==> k + 1 == b.len() || b[k + 1] == '/',
        count_char(b, '{') <= 25,
{
    let t = b.drop_first();
    lemma_scan_shape(t, ScanState::SegStart);
    assert forall|k: int| 0 <= k < b.len() - 1 && #[trigger] b[k] == '/' implies b[k + 1] != ':'
        && b[k + 1] != '*' by {
        if k > 0 {
            assert(t[k - 1] == b[k]);
        }
    }
    assert forall|k: int| 0 <= k < b.len() && #[trigger] b[k] == '{' implies k + 1 < b.len() && b[k
        + 1] != '}' && b[k + 1] != '*' by {
        assert(t[k - 1] == b[k]);
    }
    assert forall|k: int| 0 <= k < b.len() && #[trigger] b[k] == '}' implies k + 1 == b.len() || b[k
        + 1] == '/' by {
        assert(t[k - 1] == b[k]);
    }
}

proof fn lemma_erase_concat_static(a: Seq<char>, c: Seq<char>)
    requires
        !a.contains('{'),
    ensures
        erase_from(a + c, false) == a + erase_from(c, false),
    decreases a.len(),
{
    if a.len() == 0 {
        assert(a + c =~= c);
    } else {
        assert(a[0] != '{');
        assert forall|i: int| 0 <= i < a.drop_first().len() implies a.drop_first()[i] != '{' by {
            assert(a.drop_first()[i] == a[i + 1]);
        }
        assert((a + c)[0] == a[0]);
        assert((a + c).drop_first() =~= a.drop_first() + c);
        lemma_erase_concat_static(a.drop_first(), c);
        assert(seq![a[0]] + (a.drop_first() + erase_from(c, false)) =~= a + erase_from(c, false));
    }
}

proof fn lemma_erase_name(n: Seq<char>)
    requires
        !n.contains('}'),
    ensures
        erase_from(n + seq!['}'], true) == seq!['}'],
    decreases n.len(),
{
    let one = seq!['}'];
    assert(one[0] == '}');
    assert(one.drop_first() =~= Seq::<char>::empty());
    assert(erase_from(one.drop_first(), false) =~= Seq::<char>::empty());
    if n.len() == 0 {
        assert(n + one =~= one);
        assert(seq!['}'] + Seq::<char>::empty() =~= one);
    } else {
        assert(n[0] != '}');
        assert forall|i: int| 0 <= i < n.drop_first().len() implies n.drop_first()[i] != '}' by {
            assert(n.drop_first()[i] == n[i + 1]);
        }
        assert((n + one)[0] == n[0]);
        assert((n + one).drop_first() =~= n.drop_first() + one);
        lemma_erase_name(n.drop_first());
    }
}

/// A base without captures overlaps its continuation by a capture segment,
/// whatever the capture is named: the base's catch-all and the capture would
/// take the same position (as `/a` and `/a/{id}` do).
pub proof fn lemma_capture_child_overlaps(b: Seq<char>, name: Seq<char>)
    requires
        !b.contains('{'),
        !name.contains('}'),
    ensures
        bases_overlap(b, b + (seq!['/', '{'] + name + seq!['}'])),
        bases_overlap(b + (seq!['/', '{'] + name + seq!['}']), b),
{
    let s = seq!['/', '{'] + name + seq!['}'];
    lemma_erased_without_captures(b);
    lemma_erase_concat_static(b, s);
    let s1 = s.drop_first();
    assert(s[0] == '/');
    assert(s1[0] == '{');
    assert(s1.drop_first() =~= name + seq!['}']);
    lemma_erase_name(name);
    assert(erase_from(s1, false) == seq!['{'] + erase_from(s1.drop_first(), true));
    assert(erase_from(s1, false) =~= seq!['{', '}']);
    assert(erase_from(s, false) == seq!['/'] + erase_from(s1, false));
    assert(erase_from(s, false) =~= seq!['/', '{', '}']);
    let e = b + seq!['/', '{', '}'];
    assert(e.take(b.len() as int) =~= b);
    assert(e[b.len() as int] == '/');
    assert(e[b.len() + 1int] == '{');
}

} // verus!
