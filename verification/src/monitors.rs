//! Monitor-layout detection: parsing a textual display report into an
//! ordered list of monitors.
//!
//! The report has one line per display output, of the shape
//! `NAME connected|disconnected [primary] WIDTHxHEIGHT+X+Y ...`.
//! A line counts only when it carries the token `connected` (and not
//! `disconnected`); the first whitespace token is the output's name and the
//! first token of the shape `WxH+X+Y` is its geometry. Lines without a
//! parseable geometry are skipped. The result is sorted ascending by x
//! offset, the left-to-right physical order that image assignment relies on.
//!
//! Running the external query tool is the caller's business; this module
//! owns everything from the report text onward.

use vstd::prelude::*;
use vstd::string::StrSliceExecFns;
use vstd::string::StringExecFns;
use vstd::seq_lib::lemma_multiset_commutative;

verus! {

/// A connected display output: pixel size and top-left offset in the shared
/// virtual screen space.
#[derive(Debug)]
pub struct Monitor {
    pub name: String,
    pub width: u32,
    pub height: u32,
    pub x: u32,
    pub y: u32,
}

/// A monitor as plain values.
pub ghost struct MonitorModel {
    pub name: Seq<char>,
    pub width: u32,
    pub height: u32,
    pub x: u32,
    pub y: u32,
}

impl View for Monitor {
    type V = MonitorModel;

    open spec fn view(&self) -> MonitorModel {
        MonitorModel {
            name: self.name@,
            width: self.width,
            height: self.height,
            x: self.x,
            y: self.y,
        }
    }
}

impl Clone for Monitor {
    fn clone(&self) -> (r: Self)
        ensures
            r@ == self@,
    {
        Monitor {
            name: self.name.clone(),
            width: self.width,
            height: self.height,
            x: self.x,
            y: self.y,
        }
    }
}

/// Why detection failed.
#[derive(Debug)]
pub enum DetectError {
    /// The external query tool could not be launched; carries the launch
    /// error's text.
    ToolInvocation(String),
    /// The tool ran and exited non-zero; carries its diagnostic output.
    ToolFailure(String),
    /// The report parsed, but described no connected monitor.
    NoMonitorsFound,
}

impl DetectError {
    /// A human-readable description of the failure.
    pub fn message(&self) -> (r: String)
        ensures
            self matches DetectError::ToolInvocation(d) ==> r@ == "failed to run xrandr: "@ + d@,
            self matches DetectError::ToolFailure(d) ==> r@ == "xrandr failed: "@ + d@,
            self matches DetectError::NoMonitorsFound ==> r@ == "no connected monitors found"@,
    {
        match self {
            DetectError::ToolInvocation(d) => {
                let mut s = String::from_str("failed to run xrandr: ");
                s.append(d.as_str());
                s
            },
            DetectError::ToolFailure(d) => {
                let mut s = String::from_str("xrandr failed: ");
                s.append(d.as_str());
                s
            },
            DetectError::NoMonitorsFound => String::from_str("no connected monitors found"),
        }
    }
}

/// Whitespace that separates tokens on a report line.
pub open spec fn is_space(c: char) -> bool {
    c == ' ' || c == '\t' || c == '\r'
}

/// An ASCII decimal digit.
pub open spec fn is_digit(c: char) -> bool {
    '0' <= c && c <= '9'
}

/// The numeric value of a digit sequence, most significant first.
pub open spec fn digits_val(s: Seq<char>) -> int
    decreases s.len(),
{
    if s.len() == 0 {
        0
    } else {
        digits_val(s.drop_last()) * 10 + (s.last() as int - '0' as int)
    }
}

/// What a digit run parses to: its value, if the run is nonempty, all
/// digits, and in range.
pub open spec fn parse_u32_spec(s: Seq<char>) -> Option<u32> {
    if s.len() > 0 && (forall|i: int| 0 <= i < s.len() ==> is_digit(#[trigger] s[i]))
        && digits_val(s) <= u32::MAX {
        Some(digits_val(s) as u32)
    } else {
        None
    }
}

proof fn lemma_digits_val_nonneg(s: Seq<char>)
    requires
        forall|i: int| 0 <= i < s.len() ==> is_digit(#[trigger] s[i]),
    ensures
        digits_val(s) >= 0,
    decreases s.len(),
{
    if s.len() > 0 {
        assert(forall|i: int|
            0 <= i < s.drop_last().len() ==> is_digit(#[trigger] s.drop_last()[i]));
        lemma_digits_val_nonneg(s.drop_last());
    }
}

/// Parse the digit run `s[from..to]` as a decimal number.
fn parse_u32_range(s: &Vec<char>, from: usize, to: usize) -> (r: Option<u32>)
    requires
        from <= to <= s@.len(),
    ensures
        r == parse_u32_spec(s@.subrange(from as int, to as int)),
{
    let ghost whole = s@.subrange(from as int, to as int);
    if from == to {
        return None;
    }
    let mut acc: u64 = 0;
    let mut i: usize = from;
    while i < to
        invariant
            from <= i <= to <= s@.len(),
            whole == s@.subrange(from as int, to as int),
            forall|j: int| from <= j < i ==> is_digit(#[trigger] s@[j]),
            ({
                let pfx = s@.subrange(from as int, i as int);
                (digits_val(pfx) <= u32::MAX ==> acc == digits_val(pfx)) && (digits_val(pfx)
                    > u32::MAX ==> acc > u32::MAX) && acc <= 0xf_ffff_ffffu64
            }),
        decreases to - i,
    {
        let c = s[i];
        if !('0' <= c && c <= '9') {
            assert(!is_digit(whole[i - from]));
            return None;
        }
        let d: u64 = (c as u32 as u64) - 48;
        proof {
            let pfx = s@.subrange(from as int, i as int);
            let pfx2 = s@.subrange(from as int, i as int + 1);
            assert(pfx2.drop_last() =~= pfx);
            assert(pfx2.last() == s@[i as int]);
            assert(forall|j: int| 0 <= j < pfx.len() ==> is_digit(#[trigger] pfx[j]));
            lemma_digits_val_nonneg(pfx);
        }
        if acc <= 0xffff_ffffu64 {
            acc = acc * 10 + d;
        }
        i = i + 1;
    }
    proof {
        assert(forall|j: int| 0 <= j < whole.len() ==> is_digit(#[trigger] whole[j]));
        lemma_digits_val_nonneg(whole);
    }
    if acc <= 0xffff_ffffu64 {
        Some(acc as u32)
    } else {
        None
    }
}

/// The first position of `c` in `s` at or after `i`, or `-1`.
pub open spec fn find_char(s: Seq<char>, c: char, i: int) -> int
    decreases s.len() - i,
{
    if i < 0 || i >= s.len() {
        -1
    } else if s[i] == c {
        i
    } else {
        find_char(s, c, i + 1)
    }
}

/// Find the first occurrence of `c` in `s`.
fn find_char_vec(s: &Vec<char>, c: char) -> (r: Option<usize>)
    ensures
        match r {
            Some(j) => find_char(s@, c, 0) == j as int,
            None => find_char(s@, c, 0) == -1,
        },
{
    let mut i: usize = 0;
    while i < s.len()
        invariant
            i <= s@.len(),
            find_char(s@, c, 0) == find_char(s@, c, i as int),
        decreases s@.len() - i,
    {
        if s[i] == c {
            return Some(i);
        }
        i = i + 1;
    }
    None
}

/// What a geometry token of the shape `WIDTHxHEIGHT+X+Y` parses to: split at
/// the first `+`; the left part splits at its first `x` into width and
/// height, the right part at its first `+` into the two offsets.
pub open spec fn geometry_spec(t: Seq<char>) -> Option<MonitorModel> {
    let p = find_char(t, '+', 0);
    if p < 0 {
        None
    } else {
        let res = t.subrange(0, p);
        let rest = t.subrange(p + 1, t.len() as int);
        let q = find_char(res, 'x', 0);
        let r2 = find_char(rest, '+', 0);
        if q < 0 || r2 < 0 {
            None
        } else {
            let w = parse_u32_spec(res.subrange(0, q));
            let h = parse_u32_spec(res.subrange(q + 1, res.len() as int));
            let x = parse_u32_spec(rest.subrange(0, r2));
            let y = parse_u32_spec(rest.subrange(r2 + 1, rest.len() as int));
            if w is Some && h is Some && x is Some && y is Some {
                Some(
                    MonitorModel {
                        name: Seq::empty(),
                        width: w->0,
                        height: h->0,
                        x: x->0,
                        y: y->0,
                    },
                )
            } else {
                None
            }
        }
    }
}

/// Parse a geometry token over chars; the name field of the result is left
/// empty.
fn parse_geometry_chars(t: &Vec<char>) -> (r: Option<(u32, u32, u32, u32)>)
    ensures
        match r {
            Some(g) => geometry_spec(t@) == Some(
                MonitorModel {
                    name: Seq::empty(),
                    width: g.0,
                    height: g.1,
                    x: g.2,
                    y: g.3,
                },
            ),
            None => geometry_spec(t@) is None,
        },
{
    let ghost tv = t@;
    let n = t.len();
    let Some(p) = find_char_vec(t, '+') else { return None };
    proof {
        lemma_find_bounds(tv, '+', 0);
    }
    let ghost res = tv.subrange(0, p as int);
    let ghost rest = tv.subrange(p as int + 1, tv.len() as int);
    // the first 'x' of the whole token lies in `res` or not at all
    let q = match find_char_vec(t, 'x') {
        Some(q) if q < p => q,
        _ => {
            proof {
                lemma_find_bounds(tv, 'x', 0);
                lemma_find_subrange_none(tv, 'x', p as int);
            }
            return None;
        },
    };
    proof {
        lemma_find_bounds(tv, 'x', 0);
        lemma_find_subrange(tv, 'x', p as int, q as int);
    }
    // the second '+' is the first one after position p
    let r2 = match find_char_from(t, '+', p + 1) {
        Some(r2) => r2,
        None => {
            proof {
                lemma_find_shift_none(tv, '+', p as int + 1);
            }
            return None;
        },
    };
    proof {
        lemma_find_bounds(tv, '+', p as int + 1);
        lemma_find_shift(tv, '+', p as int + 1, r2 as int);
    }
    let w = parse_u32_range(t, 0, q);
    let h = parse_u32_range(t, q + 1, p);
    let x = parse_u32_range(t, p + 1, r2);
    let y = parse_u32_range(t, r2 + 1, n);
    proof {
        assert(res.subrange(0, q as int) =~= tv.subrange(0, q as int));
        assert(res.subrange(q as int + 1, res.len() as int) =~= tv.subrange(
            q as int + 1,
            p as int,
        ));
        assert(rest.subrange(0, r2 as int - p - 1) =~= tv.subrange(p as int + 1, r2 as int));
        assert(rest.subrange(r2 as int - p - 1 + 1, rest.len() as int) =~= tv.subrange(
            r2 as int + 1,
            tv.len() as int,
        ));
    }
    match (w, h, x, y) {
        (Some(w), Some(h), Some(x), Some(y)) => Some((w, h, x, y)),
        _ => None,
    }
}

/// Find the first occurrence of `c` at or after `from`.
fn find_char_from(s: &Vec<char>, c: char, from: usize) -> (r: Option<usize>)
    requires
        from <= s@.len(),
    ensures
        match r {
            Some(j) => find_char(s@, c, from as int) == j as int,
            None => find_char(s@, c, from as int) == -1,
        },
{
    let mut i: usize = from;
    while i < s.len()
        invariant
            from <= i <= s@.len(),
            find_char(s@, c, from as int) == find_char(s@, c, i as int),
        decreases s@.len() - i,
    {
        if s[i] == c {
            return Some(i);
        }
        i = i + 1;
    }
    None
}

/// In `s` with first `+` at `p`: `x` found at `q < p` means the prefix
/// before `p` has its first `x` at `q`.
proof fn lemma_find_subrange(s: Seq<char>, c: char, p: int, q: int)
    requires
        0 <= q < p <= s.len(),
        find_char(s, c, 0) == q,
    ensures
        find_char(s.subrange(0, p), c, 0) == q,
{
    lemma_find_subrange_rec(s, c, p, 0, q);
}

proof fn lemma_find_subrange_rec(s: Seq<char>, c: char, p: int, i: int, q: int)
    requires
        0 <= i <= q < p <= s.len(),
        find_char(s, c, i) == q,
    ensures
        find_char(s.subrange(0, p), c, i) == q,
    decreases q - i,
{
    lemma_find_bounds(s, c, i);
    if i < q {
        assert(s[i] != c) by {
            lemma_find_first(s, c, i);
        }
        lemma_find_subrange_rec(s, c, p, i + 1, q);
    }
}

/// No `c` in `s` at all means none in a prefix either.
proof fn lemma_find_subrange_none(s: Seq<char>, c: char, p: int)
    requires
        0 <= p <= s.len(),
        find_char(s, c, 0) == -1 || find_char(s, c, 0) >= p,
    ensures
        find_char(s.subrange(0, p), c, 0) == -1,
{
    lemma_find_subrange_none_rec(s, c, p, 0);
}

proof fn lemma_find_subrange_none_rec(s: Seq<char>, c: char, p: int, i: int)
    requires
        0 <= i <= p <= s.len(),
        find_char(s, c, i) == -1 || find_char(s, c, i) >= p,
    ensures
        find_char(s.subrange(0, p), c, i) == -1,
    decreases p - i,
{
    if i < p {
        lemma_find_first(s, c, i);
        lemma_find_bounds(s, c, i);
        lemma_find_subrange_none_rec(s, c, p, i + 1);
    }
}

/// A find landing at `r2` in the whole string corresponds to `r2 - k` in
/// the suffix starting at `k`.
proof fn lemma_find_shift(s: Seq<char>, c: char, k: int, r2: int)
    requires
        0 <= k <= r2 < s.len(),
        find_char(s, c, k) == r2,
    ensures
        find_char(s.subrange(k, s.len() as int), c, 0) == r2 - k,
{
    lemma_find_shift_rec(s, c, k, k, r2);
}

proof fn lemma_find_shift_rec(s: Seq<char>, c: char, k: int, i: int, r2: int)
    requires
        0 <= k <= i <= r2 < s.len(),
        find_char(s, c, i) == r2,
    ensures
        find_char(s.subrange(k, s.len() as int), c, i - k) == r2 - k,
    decreases r2 - i,
{
    lemma_find_bounds(s, c, i);
    if i < r2 {
        assert(s[i] != c) by {
            lemma_find_first(s, c, i);
        }
        lemma_find_shift_rec(s, c, k, i + 1, r2);
    }
}

proof fn lemma_find_shift_none(s: Seq<char>, c: char, k: int)
    requires
        0 <= k <= s.len(),
        find_char(s, c, k) == -1,
    ensures
        find_char(s.subrange(k, s.len() as int), c, 0) == -1,
{
    lemma_find_shift_none_rec(s, c, k, k);
}

proof fn lemma_find_shift_none_rec(s: Seq<char>, c: char, k: int, i: int)
    requires
        0 <= k <= i <= s.len(),
        find_char(s, c, i) == -1,
    ensures
        find_char(s.subrange(k, s.len() as int), c, i - k) == -1,
    decreases s.len() - i,
{
    if i < s.len() {
        lemma_find_first(s, c, i);
        lemma_find_shift_none_rec(s, c, k, i + 1);
    }
}

/// `find_char` lands on `c`, at or after where it started, or is `-1`.
proof fn lemma_find_bounds(s: Seq<char>, c: char, i: int)
    requires
        0 <= i,
    ensures
        find_char(s, c, i) == -1 || (i <= find_char(s, c, i) < s.len() && s[find_char(s, c, i)]
            == c),
    decreases s.len() - i,
{
    if i < s.len() && s[i] != c {
        lemma_find_bounds(s, c, i + 1);
    }
}

/// Before the found position there is no `c`.
proof fn lemma_find_first(s: Seq<char>, c: char, i: int)
    requires
        0 <= i < s.len(),
        find_char(s, c, i) != i,
    ensures
        s[i] != c,
        find_char(s, c, i) == find_char(s, c, i + 1),
{
}

/// The whitespace-separated tokens of a line: its maximal nonspace runs,
/// in order.
pub open spec fn tokens_of(s: Seq<char>) -> Seq<Seq<char>>
    decreases s.len(),
{
    if s.len() == 0 {
        Seq::empty()
    } else {
        let rest = tokens_of(s.drop_last());
        let c = s.last();
        if is_space(c) {
            rest
        } else if s.len() >= 2 && !is_space(s[s.len() - 2]) {
            rest.update(rest.len() - 1, rest.last().push(c))
        } else {
            rest.push(seq![c])
        }
    }
}

fn is_space_exec(c: char) -> (r: bool)
    ensures
        r == is_space(c),
{
    c == ' ' || c == '\t' || c == '\r'
}

/// Split a line into its whitespace-separated tokens.
fn tokenize(line: &Vec<char>) -> (r: Vec<Vec<char>>)
    ensures
        r.deep_view() == tokens_of(line@),
{
    let mut done: Vec<Vec<char>> = Vec::new();
    let mut cur: Vec<char> = Vec::new();
    let mut in_token = false;
    let mut i: usize = 0;
    while i < line.len()
        invariant
            i <= line@.len(),
            in_token == (i > 0 && !is_space(line@[i as int - 1])),
            in_token ==> tokens_of(line@.subrange(0, i as int)) == done.deep_view().push(cur@),
            !in_token ==> tokens_of(line@.subrange(0, i as int)) == done.deep_view() && cur@
                == Seq::<char>::empty(),
        decreases line@.len() - i,
    {
        let c = line[i];
        let ghost pfx = line@.subrange(0, i as int);
        let ghost pfx2 = line@.subrange(0, i as int + 1);
        proof {
            assert(pfx2.drop_last() =~= pfx);
            assert(pfx2.last() == line@[i as int]);
        }
        if is_space_exec(c) {
            if in_token {
                let ghost old_done = done.deep_view();
                let ghost old_cur = cur@;
                done.push(cur);
                cur = Vec::new();
                in_token = false;
                proof {
                    assert(done.deep_view() =~~= old_done.push(old_cur));
                }
            }
        } else {
            if in_token {
                let ghost old_done = done.deep_view();
                let ghost old_cur = cur@;
                cur.push(c);
                proof {
                    let rest = tokens_of(pfx);
                    assert(rest == old_done.push(old_cur));
                    assert(tokens_of(pfx2) == rest.update(rest.len() - 1, rest.last().push(c)));
                    assert(rest.last() == old_cur);
                    assert(rest.update(rest.len() - 1, old_cur.push(c)) =~= old_done.push(
                        old_cur.push(c),
                    ));
                    assert(cur@ == old_cur.push(c));
                }
            } else {
                cur.push(c);
                in_token = true;
                proof {
                    assert(tokens_of(pfx2) == tokens_of(pfx).push(seq![c]));
                    assert(cur@ =~= seq![c]);
                }
            }
        }
        i = i + 1;
    }
    proof {
        assert(line@.subrange(0, line@.len() as int) =~= line@);
    }
    if in_token {
        let ghost old_done = done.deep_view();
        let ghost old_cur = cur@;
        done.push(cur);
        proof {
            assert(done.deep_view() =~~= old_done.push(old_cur));
        }
    }
    done
}

/// Whether some token equals the word `w`.
pub open spec fn has_token(toks: Seq<Seq<char>>, w: Seq<char>) -> bool {
    exists|k: int| 0 <= k < toks.len() && #[trigger] toks[k] == w
}

/// Compare a token with a literal word.
pub(crate) fn token_eq(t: &Vec<char>, lit: &str) -> (r: bool)
    ensures
        r == (t@ == lit@),
{
    let m = lit.unicode_len();
    if t.len() != m {
        return false;
    }
    let mut j: usize = 0;
    while j < m
        invariant
            j <= m,
            m == lit@.len(),
            t@.len() == m,
            forall|k: int| 0 <= k < j ==> t@[k] == lit@[k],
        decreases m - j,
    {
        if t[j] != lit.get_char(j) {
            return false;
        }
        j = j + 1;
    }
    proof {
        assert(t@ =~= lit@);
    }
    true
}

fn any_token_eq(toks: &Vec<Vec<char>>, lit: &str) -> (r: bool)
    ensures
        r == has_token(toks.deep_view(), lit@),
{
    let mut k: usize = 0;
    while k < toks.len()
        invariant
            k <= toks@.len(),
            forall|j: int| 0 <= j < k ==> #[trigger] toks.deep_view()[j] != lit@,
        decreases toks@.len() - k,
    {
        proof {
            assert(toks.deep_view()[k as int] =~= toks@[k as int]@);
        }
        if token_eq(&toks[k], lit) {
            assert(toks.deep_view()[k as int] == lit@);
            return true;
        }
        k = k + 1;
    }
    false
}

/// The first token that looks like a geometry (holds both an `x` and a
/// `+`), from position `i` on; `-1` when there is none.
pub open spec fn geom_token_idx(toks: Seq<Seq<char>>, i: int) -> int
    decreases toks.len() - i,
{
    if i < 0 || i >= toks.len() {
        -1
    } else if find_char(toks[i], 'x', 0) >= 0 && find_char(toks[i], '+', 0) >= 0 {
        i
    } else {
        geom_token_idx(toks, i + 1)
    }
}

fn find_geom_token(toks: &Vec<Vec<char>>) -> (r: Option<usize>)
    ensures
        match r {
            Some(g) => geom_token_idx(toks.deep_view(), 0) == g as int,
            None => geom_token_idx(toks.deep_view(), 0) == -1,
        },
{
    let mut k: usize = 0;
    while k < toks.len()
        invariant
            k <= toks@.len(),
            geom_token_idx(toks.deep_view(), 0) == geom_token_idx(toks.deep_view(), k as int),
        decreases toks@.len() - k,
    {
        proof {
            assert(toks.deep_view()[k as int] =~= toks@[k as int]@);
        }
        let has_x = find_char_vec(&toks[k], 'x');
        let has_plus = find_char_vec(&toks[k], '+');
        proof {
            lemma_find_bounds(toks.deep_view()[k as int], 'x', 0);
            lemma_find_bounds(toks.deep_view()[k as int], '+', 0);
        }
        if has_x.is_some() && has_plus.is_some() {
            return Some(k);
        }
        k = k + 1;
    }
    None
}

/// What one report line contributes: a monitor exactly when the line
/// carries the token `connected` (and not `disconnected`) and one of its
/// tokens parses as a geometry; the name is the line's first token.
pub open spec fn line_monitor(line: Seq<char>) -> Option<MonitorModel> {
    let toks = tokens_of(line);
    if !(has_token(toks, "connected"@) && !has_token(toks, "disconnected"@)) {
        None
    } else {
        let g = geom_token_idx(toks, 0);
        if g < 0 {
            None
        } else {
            match geometry_spec(toks[g]) {
                Some(m) => Some(
                    MonitorModel {
                        name: if toks.len() > 0 {
                            toks[0]
                        } else {
                            Seq::empty()
                        },
                        width: m.width,
                        height: m.height,
                        x: m.x,
                        y: m.y,
                    },
                ),
                None => None,
            }
        }
    }
}

/// Relies on `String: FromIterator<char>`: collecting characters yields the
/// string of exactly those characters.
#[verifier::external_body]
fn string_from_chars(v: &Vec<char>) -> (r: String)
    ensures
        r@ == v@,
{
    v.iter().collect()
}

/// Parse one report line.
pub fn parse_monitor_line(line: &Vec<char>) -> (r: Option<Monitor>)
    ensures
        match r {
            Some(m) => line_monitor(line@) == Some(m@),
            None => line_monitor(line@) is None,
        },
{
    let toks = tokenize(line);
    if !any_token_eq(&toks, "connected") {
        return None;
    }
    if any_token_eq(&toks, "disconnected") {
        return None;
    }
    let Some(g) = find_geom_token(&toks) else { return None };
    proof {
        lemma_geom_token_bounds(toks.deep_view(), 0);
    }
    proof {
        assert(toks.deep_view()[g as int] =~= toks@[g as int]@);
    }
    let Some(geo) = parse_geometry_chars(&toks[g]) else { return None };
    assert(toks@.len() > 0) by {
        let k = choose|k: int| 0 <= k < toks.deep_view().len() && toks.deep_view()[k]
            == "connected"@;
    }
    proof {
        assert(toks.deep_view()[0] =~= toks@[0]@);
    }
    let name = string_from_chars(&toks[0]);
    let mon = Monitor { name, width: geo.0, height: geo.1, x: geo.2, y: geo.3 };
    proof {
        let toks_spec = tokens_of(line@);
        assert(geometry_spec(toks_spec[g as int]) == Some(
            MonitorModel {
                name: Seq::empty(),
                width: geo.0,
                height: geo.1,
                x: geo.2,
                y: geo.3,
            },
        ));
        assert(line_monitor(line@) == Some(mon@));
    }
    Some(mon)
}

proof fn lemma_geom_token_bounds(toks: Seq<Seq<char>>, i: int)
    requires
        0 <= i,
    ensures
        geom_token_idx(toks, i) == -1 || i <= geom_token_idx(toks, i) < toks.len(),
    decreases toks.len() - i,
{
    if i < toks.len() && !(find_char(toks[i], 'x', 0) >= 0 && find_char(toks[i], '+', 0) >= 0) {
        lemma_geom_token_bounds(toks, i + 1);
    }
}

/// Parse a geometry token of the shape `WIDTHxHEIGHT+X+Y` into a monitor
/// with the given name.
pub fn parse_geometry(name: &str, geom: &str) -> (r: Option<Monitor>)
    ensures
        match r {
            Some(m) => geometry_spec(geom@) == Some(
                MonitorModel {
                    name: Seq::empty(),
                    width: m@.width,
                    height: m@.height,
                    x: m@.x,
                    y: m@.y,
                },
            ) && m@.name == name@,
            None => geometry_spec(geom@) is None,
        },
{
    let cs = chars_of(geom);
    let geo = parse_geometry_chars(&cs)?;
    Some(
        Monitor {
            name: name.to_owned(),
            width: geo.0,
            height: geo.1,
            x: geo.2,
            y: geo.3,
        },
    )
}

/// The characters of a string, one by one.
pub(crate) fn chars_of(s: &str) -> (r: Vec<char>)
    ensures
        r@ == s@,
{
    let n = s.unicode_len();
    let mut r: Vec<char> = Vec::new();
    let mut i: usize = 0;
    while i < n
        invariant
            i <= n,
            n == s@.len(),
            r@ == s@.subrange(0, i as int),
        decreases n - i,
    {
        r.push(s.get_char(i));
        proof {
            assert(r@ =~= s@.subrange(0, i as int + 1));
        }
        i = i + 1;
    }
    proof {
        assert(s@.subrange(0, s@.len() as int) =~= s@);
    }
    r
}

/// The lines of a report: the pieces between newline characters (one more
/// piece than there are newlines).
pub open spec fn lines_of(s: Seq<char>) -> Seq<Seq<char>>
    decreases s.len(),
{
    if s.len() == 0 {
        seq![Seq::<char>::empty()]
    } else {
        let rest = lines_of(s.drop_last());
        let c = s.last();
        if c == '\n' {
            rest.push(Seq::empty())
        } else {
            rest.update(rest.len() - 1, rest.last().push(c))
        }
    }
}

/// Split a report into lines.
fn split_lines(s: &Vec<char>) -> (r: Vec<Vec<char>>)
    ensures
        r.deep_view() == lines_of(s@),
{
    let mut done: Vec<Vec<char>> = Vec::new();
    let mut cur: Vec<char> = Vec::new();
    let mut i: usize = 0;
    while i < s.len()
        invariant
            i <= s@.len(),
            lines_of(s@.subrange(0, i as int)) == done.deep_view().push(cur@),
        decreases s@.len() - i,
    {
        let c = s[i];
        let ghost pfx = s@.subrange(0, i as int);
        let ghost pfx2 = s@.subrange(0, i as int + 1);
        proof {
            assert(pfx2.drop_last() =~= pfx);
            assert(pfx2.last() == s@[i as int]);
        }
        if c == '\n' {
            let ghost old_done = done.deep_view();
            let ghost old_cur = cur@;
            done.push(cur);
            cur = Vec::new();
            proof {
                assert(done.deep_view() =~~= old_done.push(old_cur));
                assert(lines_of(pfx2) == lines_of(pfx).push(Seq::<char>::empty()));
                assert(done.deep_view().push(cur@) =~~= lines_of(pfx).push(Seq::<char>::empty()));
            }
        } else {
            let ghost old_done = done.deep_view();
            let ghost old_cur = cur@;
            cur.push(c);
            proof {
                let rest = lines_of(pfx);
                assert(rest == old_done.push(old_cur));
                assert(lines_of(pfx2) == rest.update(rest.len() - 1, rest.last().push(c)));
                assert(rest.update(rest.len() - 1, old_cur.push(c)) =~= old_done.push(
                    old_cur.push(c),
                ));
            }
        }
        i = i + 1;
    }
    proof {
        assert(s@.subrange(0, s@.len() as int) =~= s@);
    }
    let ghost old_done = done.deep_view();
    let ghost old_cur = cur@;
    done.push(cur);
    proof {
        assert(done.deep_view() =~~= old_done.push(old_cur));
    }
    done
}

/// The monitors that a sequence of report lines describes, in line order.
pub open spec fn monitors_of_lines(ls: Seq<Seq<char>>) -> Seq<MonitorModel>
    decreases ls.len(),
{
    if ls.len() == 0 {
        Seq::empty()
    } else {
        let rest = monitors_of_lines(ls.drop_last());
        match line_monitor(ls.last()) {
            Some(m) => rest.push(m),
            None => rest,
        }
    }
}

/// The monitors a whole report describes, in line order (before sorting).
pub open spec fn report_monitors(s: Seq<char>) -> Seq<MonitorModel> {
    monitors_of_lines(lines_of(s))
}

/// The monitors of a sequence, as plain values.
pub open spec fn views_of(ms: Seq<Monitor>) -> Seq<MonitorModel> {
    ms.map_values(|m: Monitor| m@)
}

/// Ascending by x offset: left-to-right physical order.
pub open spec fn sorted_by_x(ms: Seq<MonitorModel>) -> bool {
    forall|i: int, j: int| 0 <= i <= j < ms.len() ==> ms[i].x <= ms[j].x
}

proof fn lemma_insert_multiset(s: Seq<MonitorModel>, pos: int, elt: MonitorModel)
    requires
        0 <= pos <= s.len(),
    ensures
        s.insert(pos, elt).to_multiset() == s.to_multiset().insert(elt),
{
    let a = s.subrange(0, pos);
    let b = s.subrange(pos, s.len() as int);
    assert(s.insert(pos, elt) =~= a.push(elt) + b);
    assert(s =~= a + b);
    lemma_multiset_commutative(a.push(elt), b);
    lemma_multiset_commutative(a, b);
    a.to_multiset_ensures();
    assert(s.insert(pos, elt).to_multiset() =~= s.to_multiset().insert(elt));
}

/// Insert a monitor into a list sorted ascending by x, after any equal
/// offsets, keeping it sorted.
fn insert_sorted(v: &mut Vec<Monitor>, m: Monitor)
    requires
        sorted_by_x(views_of(old(v)@)),
    ensures
        sorted_by_x(views_of(final(v)@)),
        views_of(final(v)@).to_multiset() == views_of(old(v)@).to_multiset().insert(m@),
        final(v)@.len() == old(v)@.len() + 1,
{
    let mut i: usize = 0;
    while i < v.len() && v[i].x <= m.x
        invariant
            i <= v@.len(),
            v@ == old(v)@,
            forall|j: int| 0 <= j < i ==> views_of(v@)[j].x <= m@.x,
        decreases v@.len() - i,
    {
        i = i + 1;
    }
    let ghost old_views = views_of(v@);
    proof {
        assert(i as int == old_views.len() || old_views[i as int].x > m@.x);
    }
    v.insert(i, m);
    proof {
        assert(views_of(v@) =~= old_views.insert(i as int, m@));
        old_views.insert_ensures(i as int, m@);
        lemma_insert_multiset(old_views, i as int, m@);
        let nv = views_of(v@);
        assert forall|a: int, b: int| 0 <= a <= b < nv.len() implies nv[a].x <= nv[b].x by {
            if b < i {
                assert(nv[a] == old_views[a] && nv[b] == old_views[b]);
            } else if a < i as int && b == i as int {
                assert(nv[a] == old_views[a] && nv[b] == m@);
            } else if a == i as int && b == i as int {
            } else if a == i as int && b > i as int {
                assert(nv[b] == old_views[b - 1]);
                assert(old_views[i as int].x <= old_views[b - 1].x);
            } else if a < i as int && b > i as int {
                assert(nv[a] == old_views[a] && nv[b] == old_views[b - 1]);
                assert(old_views[i as int].x <= old_views[b - 1].x);
            } else {
                assert(nv[a] == old_views[a - 1] && nv[b] == old_views[b - 1]);
            }
        }
    }
}

/// Parse a whole display report. Returns the connected monitors, sorted
/// ascending by x offset; fails exactly when the report describes none.
pub fn parse_report(input: &str) -> (r: Result<Vec<Monitor>, DetectError>)
    ensures
        match r {
            Ok(v) => views_of(v@).to_multiset() == report_monitors(input@).to_multiset()
                && sorted_by_x(views_of(v@)) && v@.len() > 0 && report_monitors(input@).len() > 0,
            Err(e) => e is NoMonitorsFound && report_monitors(input@).len() == 0,
        },
{
    let cs = chars_of(input);
    let lines = split_lines(&cs);
    let mut out: Vec<Monitor> = Vec::new();
    proof {
        assert(lines.deep_view().subrange(0, 0) =~= Seq::<Seq<char>>::empty());
        assert(views_of(out@) =~= Seq::<MonitorModel>::empty());
        assert(views_of(out@).to_multiset() =~= monitors_of_lines(
            lines.deep_view().subrange(0, 0),
        ).to_multiset());
    }
    let mut i: usize = 0;
    while i < lines.len()
        invariant
            i <= lines@.len(),
            lines.deep_view() == lines_of(input@),
            sorted_by_x(views_of(out@)),
            views_of(out@).to_multiset() == monitors_of_lines(
                lines.deep_view().subrange(0, i as int),
            ).to_multiset(),
            out@.len() == monitors_of_lines(lines.deep_view().subrange(0, i as int)).len(),
        decreases lines@.len() - i,
    {
        let ghost pls = lines.deep_view().subrange(0, i as int);
        let ghost pls2 = lines.deep_view().subrange(0, i as int + 1);
        proof {
            assert(pls2.drop_last() =~= pls);
            assert(pls2.last() == lines.deep_view()[i as int]);
            assert(lines.deep_view()[i as int] =~= lines@[i as int]@);
        }
        match parse_monitor_line(&lines[i]) {
            Some(m) => {
                proof {
                    monitors_of_lines(pls).to_multiset_ensures();
                    assert(monitors_of_lines(pls2) == monitors_of_lines(pls).push(m@));
                }
                insert_sorted(&mut out, m);
            },
            None => {
                proof {
                    assert(monitors_of_lines(pls2) == monitors_of_lines(pls));
                }
            },
        }
        i = i + 1;
    }
    proof {
        assert(lines.deep_view().subrange(0, lines.deep_view().len() as int) =~= lines.deep_view());
    }
    if out.len() == 0 {
        proof {
            report_monitors(input@).to_multiset_ensures();
            views_of(out@).to_multiset_ensures();
        }
        Err(DetectError::NoMonitorsFound)
    } else {
        proof {
            report_monitors(input@).to_multiset_ensures();
            views_of(out@).to_multiset_ensures();
        }
        Ok(out)
    }
}

} // verus!
