//! The ACTP component compiler: reads annotated `module` blocks from Arcaea
//! source, prunes them against the environment, and emits the Rust modules of
//! the survivors.
use vstd::prelude::*;
use crate::text::{chars_of, string_from_chars, lit, concat};

verus! {

// ---------------------------------------------------------------------------
// Text helpers: lines, trimming, prefixes.
// ---------------------------------------------------------------------------

/// The first index at or after `i` that holds `c`, or the length of `s`.
pub open spec fn next_char_at(s: Seq<char>, c: char, i: int) -> int
    decreases s.len() - i,
{
    if i < 0 || i >= s.len() {
        s.len() as int
    } else if s[i] == c {
        i
    } else {
        next_char_at(s, c, i + 1)
    }
}

pub proof fn lemma_next_char_bounds(s: Seq<char>, c: char, i: int)
    requires
        0 <= i,
    ensures
        i <= next_char_at(s, c, i) <= s.len() || (i > s.len() && next_char_at(s, c, i) == s.len()),
        next_char_at(s, c, i) < s.len() ==> s[next_char_at(s, c, i)] == c,
    decreases s.len() - i,
{
    if i < s.len() && s[i] != c {
        lemma_next_char_bounds(s, c, i + 1);
    }
}

proof fn lemma_next_char_is(s: Seq<char>, c: char, i: int, j: int)
    requires
        0 <= i <= j <= s.len(),
        forall|k: int| i <= k < j ==> s[k] != c,
        j == s.len() || s[j] == c,
    ensures
        next_char_at(s, c, i) == j,
    decreases j - i,
{
    if i < j {
        lemma_next_char_is(s, c, i + 1, j);
    }
}

/// A line without the carriage return of a `\r\n` ending.
pub open spec fn strip_cr(l: Seq<char>) -> Seq<char> {
    if l.len() > 0 && l.last() == '\r' {
        l.drop_last()
    } else {
        l
    }
}

/// The lines of `s` from index `i` on, as `str::lines` yields them: split at
/// each `\n`, a `\r` right before the `\n` dropped, and no empty line after a
/// final `\n`.
pub open spec fn text_lines_from(s: Seq<char>, i: int) -> Seq<Seq<char>>
    decreases s.len() - i,
{
    if i < 0 || i >= s.len() {
        Seq::empty()
    } else {
        let j = next_char_at(s, '\n', i);
        if j >= s.len() {
            seq![s.subrange(i, s.len() as int)]
        } else {
            proof {
                lemma_next_char_bounds(s, '\n', i);
            }
            seq![strip_cr(s.subrange(i, j))] + text_lines_from(s, j + 1)
        }
    }
}

pub open spec fn text_lines(s: Seq<char>) -> Seq<Seq<char>> {
    text_lines_from(s, 0)
}

/// The characters that `char::is_whitespace` accepts: those with the Unicode
/// `White_Space` property.
pub open spec fn is_ws(c: char) -> bool {
    ||| ('\u{9}' <= c && c <= '\u{d}')
    ||| c == ' '
    ||| c == '\u{85}'
    ||| c == '\u{a0}'
    ||| c == '\u{1680}'
    ||| ('\u{2000}' <= c && c <= '\u{200a}')
    ||| c == '\u{2028}'
    ||| c == '\u{2029}'
    ||| c == '\u{202f}'
    ||| c == '\u{205f}'
    ||| c == '\u{3000}'
}

pub open spec fn trim_start(s: Seq<char>) -> Seq<char>
    decreases s.len(),
{
    if s.len() > 0 && is_ws(s[0]) {
        trim_start(s.drop_first())
    } else {
        s
    }
}

pub open spec fn trim_end(s: Seq<char>) -> Seq<char>
    decreases s.len(),
{
    if s.len() > 0 && is_ws(s.last()) {
        trim_end(s.drop_last())
    } else {
        s
    }
}

/// `s` without leading and trailing white space, as `str::trim` gives it.
pub open spec fn trim(s: Seq<char>) -> Seq<char> {
    trim_end(trim_start(s))
}

pub open spec fn starts_with(s: Seq<char>, p: Seq<char>) -> bool {
    p.len() <= s.len() && s.take(p.len() as int) == p
}

pub open spec fn ends_with(s: Seq<char>, c: char) -> bool {
    s.len() > 0 && s.last() == c
}

/// How many times `c` occurs in `s`.
pub open spec fn count_char(s: Seq<char>, c: char) -> nat
    decreases s.len(),
{
    if s.len() == 0 {
        0
    } else {
        count_char(s.drop_last(), c) + (if s.last() == c { 1nat } else { 0nat })
    }
}

/// The text between the first and the second `"` of `t` (to its end when there
/// is no second one), or nothing when `t` holds no `"`: what
/// `t.split('"').nth(1).unwrap_or("")` gives.
pub open spec fn quoted(t: Seq<char>) -> Seq<char> {
    let i = next_char_at(t, '"', 0);
    if i >= t.len() {
        Seq::empty()
    } else {
        let rest = t.subrange(i + 1, t.len() as int);
        rest.take(next_char_at(rest, '"', 0))
    }
}

fn x_is_ws(c: char) -> (r: bool)
    ensures
        r == is_ws(c),
{
    ('\u{9}' <= c && c <= '\u{d}') || c == ' ' || c == '\u{85}' || c == '\u{a0}' || c == '\u{1680}'
        || ('\u{2000}' <= c && c <= '\u{200a}') || c == '\u{2028}' || c == '\u{2029}'
        || c == '\u{202f}' || c == '\u{205f}' || c == '\u{3000}'
}

proof fn lemma_trim_start_skip(s: Seq<char>, i: int)
    requires
        0 <= i <= s.len(),
        forall|k: int| 0 <= k < i ==> is_ws(s[k]),
    ensures
        trim_start(s) == trim_start(s.subrange(i, s.len() as int)),
    decreases i,
{
    if i > 0 {
        assert(s.drop_first().subrange(i - 1, s.drop_first().len() as int) =~= s.subrange(i, s.len() as int));
        lemma_trim_start_skip(s.drop_first(), i - 1);
    } else {
        assert(s.subrange(0, s.len() as int) =~= s);
    }
}

proof fn lemma_trim_end_cut(s: Seq<char>, j: int)
    requires
        0 <= j <= s.len(),
        forall|k: int| j <= k < s.len() ==> is_ws(s[k]),
    ensures
        trim_end(s) == trim_end(s.take(j)),
    decreases s.len() - j,
{
    if j < s.len() {
        assert(s.drop_last().take(j) =~= s.take(j));
        lemma_trim_end_cut(s.drop_last(), j);
    } else {
        assert(s.take(j) =~= s);
    }
}

/// `s` without leading and trailing white space.
fn x_trim(s: &Vec<char>) -> (r: Vec<char>)
    ensures
        r@ == trim(s@),
{
    let n = s.len();
    let mut lo: usize = 0;
    while lo < n && x_is_ws(s[lo])
        invariant
            lo <= n,
            n == s@.len(),
            forall|k: int| 0 <= k < lo ==> is_ws(s@[k]),
        decreases n - lo,
    {
        lo = lo + 1;
    }
    proof {
        lemma_trim_start_skip(s@, lo as int);
    }
    let ghost t = s@.subrange(lo as int, n as int);
    assert(trim_start(t) == t);
    let mut hi: usize = n;
    while hi > lo && x_is_ws(s[hi - 1])
        invariant
            lo <= hi <= n,
            n == s@.len(),
            t == s@.subrange(lo as int, n as int),
            forall|k: int| hi - lo <= k < t.len() ==> is_ws(t[k]),
        decreases hi,
    {
        hi = hi - 1;
    }
    proof {
        lemma_trim_end_cut(t, hi - lo);
        assert(trim_end(t.take(hi - lo)) == t.take(hi - lo));
    }
    let mut r: Vec<char> = Vec::new();
    let mut i: usize = lo;
    while i < hi
        invariant
            lo <= i <= hi <= n,
            n == s@.len(),
            r@ == s@.subrange(lo as int, i as int),
        decreases hi - i,
    {
        r.push(s[i]);
        assert(r@ =~= s@.subrange(lo as int, i + 1));
        i = i + 1;
    }
    assert(r@ =~= t.take(hi - lo));
    r
}

fn x_starts_with(s: &Vec<char>, p: &Vec<char>) -> (r: bool)
    ensures
        r == starts_with(s@, p@),
{
    if p.len() > s.len() {
        return false;
    }
    let mut i: usize = 0;
    while i < p.len()
        invariant
            p@.len() <= s@.len(),
            i <= p@.len(),
            s@.take(i as int) == p@.take(i as int),
        decreases p@.len() - i,
    {
        if s[i] != p[i] {
            assert(s@.take(p@.len() as int)[i as int] != p@[i as int]);
            return false;
        }
        assert(s@.take(i + 1) =~= p@.take(i + 1));
        i = i + 1;
    }
    assert(p@.take(p@.len() as int) =~= p@);
    true
}

fn x_equals(s: &Vec<char>, p: &Vec<char>) -> (r: bool)
    ensures
        r == (s@ == p@),
{
    if s.len() != p.len() {
        return false;
    }
    let b = x_starts_with(s, p);
    proof {
        assert(s@ =~= s@.take(p@.len() as int));
    }
    b
}

fn x_count(s: &Vec<char>, c: char) -> (r: usize)
    ensures
        r == count_char(s@, c),
        r <= s@.len(),
{
    let mut k: usize = 0;
    let mut i: usize = 0;
    while i < s.len()
        invariant
            i <= s@.len(),
            k == count_char(s@.take(i as int), c),
            k <= i,
        decreases s@.len() - i,
    {
        assert(s@.take(i + 1).drop_last() =~= s@.take(i as int));
        if s[i] == c {
            k = k + 1;
        }
        i = i + 1;
    }
    assert(s@.take(s@.len() as int) =~= s@);
    k
}

/// The position of the first `c` in `s` from `i` on, or the length of `s`.
fn x_find(s: &Vec<char>, c: char, i: usize) -> (r: usize)
    requires
        i <= s@.len(),
    ensures
        r == next_char_at(s@, c, i as int),
        i <= r <= s@.len(),
{
    let mut j = i;
    while j < s.len() && s[j] != c
        invariant
            i <= j <= s@.len(),
            forall|k: int| i <= k < j ==> s@[k] != c,
        decreases s@.len() - j,
    {
        j = j + 1;
    }
    proof {
        lemma_next_char_is(s@, c, i as int, j as int);
    }
    j
}

fn x_slice(s: &Vec<char>, i: usize, j: usize) -> (r: Vec<char>)
    requires
        i <= j <= s@.len(),
    ensures
        r@ == s@.subrange(i as int, j as int),
{
    let mut r: Vec<char> = Vec::new();
    let mut k = i;
    while k < j
        invariant
            i <= k <= j <= s@.len(),
            r@ == s@.subrange(i as int, k as int),
        decreases j - k,
    {
        r.push(s[k]);
        assert(r@ =~= s@.subrange(i as int, k + 1));
        k = k + 1;
    }
    r
}

fn x_quoted(t: &Vec<char>) -> (r: Vec<char>)
    ensures
        r@ == quoted(t@),
{
    let i = x_find(t, '"', 0);
    if i >= t.len() {
        return Vec::new();
    }
    let rest = x_slice(t, i + 1, t.len());
    let j = x_find(&rest, '"', 0);
    let r = x_slice(&rest, 0, j);
    assert(r@ =~= rest@.take(j as int));
    r
}

pub open spec fn lines_view(v: Seq<Vec<char>>) -> Seq<Seq<char>> {
    v.map_values(|l: Vec<char>| l@)
}

fn x_strip_cr(l: Vec<char>) -> (r: Vec<char>)
    ensures
        r@ == strip_cr(l@),
{
    let mut l = l;
    if l.len() > 0 && l[l.len() - 1] == '\r' {
        l.pop();
    }
    l
}

/// Splits a text into lines as `str::lines` does.
pub fn split_lines(s: &Vec<char>) -> (r: Vec<Vec<char>>)
    ensures
        lines_view(r@) == text_lines(s@),
{
    let n = s.len();
    let mut lines: Vec<Vec<char>> = Vec::new();
    let mut cur: Vec<char> = Vec::new();
    let mut start: usize = 0;
    let mut i: usize = 0;
    while i < n
        invariant
            start <= i <= n,
            n == s@.len(),
            cur@ == s@.subrange(start as int, i as int),
            forall|k: int| start <= k < i ==> s@[k] != '\n',
            lines_view(lines@) + text_lines_from(s@, start as int) == text_lines(s@),
        decreases n - i,
    {
        if s[i] == '\n' {
            proof {
                lemma_next_char_is(s@, '\n', start as int, i as int);
            }
            let line = x_strip_cr(cur);
            let ghost before = lines@;
            lines.push(line);
            proof {
                assert(lines_view(lines@) =~= lines_view(before).push(strip_cr(s@.subrange(start as int, i as int))));
                assert(lines_view(lines@) + text_lines_from(s@, i + 1) =~= lines_view(before)
                    + text_lines_from(s@, start as int));
            }
            cur = Vec::new();
            start = i + 1;
            assert(cur@ =~= s@.subrange(start as int, start as int));
        } else {
            cur.push(s[i]);
            assert(cur@ =~= s@.subrange(start as int, i + 1));
        }
        i = i + 1;
    }
    if start < n {
        proof {
            lemma_next_char_is(s@, '\n', start as int, n as int);
        }
        let ghost before = lines@;
        lines.push(cur);
        proof {
            assert(lines_view(lines@) =~= lines_view(before) + text_lines_from(s@, start as int));
        }
    } else {
        assert(lines_view(lines@) =~= lines_view(lines@) + text_lines_from(s@, start as int));
    }
    lines
}

// ---------------------------------------------------------------------------
// Components and the parser's state machine.
// ---------------------------------------------------------------------------

/// The release channel of a component.
#[derive(Debug, Clone, Copy, PartialEq, Eq, Structural)]
pub enum Channel {
    Stable,
    Nightly,
}

/// A component: a named `module` block with its channel, an optional feature
/// flag, and the source lines of its body.
#[derive(Debug, Clone, PartialEq)]
pub struct ArcaeaComponent {
    pub name: String,
    pub channel: Channel,
    pub feature_flag: Option<String>,
    pub code_body: String,
}

/// The environment that components are checked against.
#[derive(Debug, Clone, PartialEq)]
pub struct EnvironmentConfig {
    pub status: String,
    pub enabled_features: Vec<String>,
}

pub struct SComponent {
    pub name: Seq<char>,
    pub channel: Channel,
    pub feature: Option<Seq<char>>,
    pub body: Seq<char>,
}

pub open spec fn opt_str_view(o: Option<String>) -> Option<Seq<char>> {
    match o {
        Some(s) => Some(s@),
        None => None,
    }
}

impl ArcaeaComponent {
    pub open spec fn view(&self) -> SComponent {
        SComponent {
            name: self.name@,
            channel: self.channel,
            feature: opt_str_view(self.feature_flag),
            body: self.code_body@,
        }
    }
}

pub open spec fn comps_view(v: Seq<ArcaeaComponent>) -> Seq<SComponent> {
    v.map_values(|c: ArcaeaComponent| c.view())
}

/// The state of the parser between two lines.
pub struct SParse {
    pub name: Seq<char>,
    pub channel: Channel,
    pub feature: Option<Seq<char>>,
    pub body: Seq<char>,
    pub in_body: bool,
    pub braces: int,
    pub comps: Seq<SComponent>,
}

pub open spec fn parse_start() -> SParse {
    SParse {
        name: Seq::empty(),
        channel: Channel::Stable,
        feature: None,
        body: Seq::empty(),
        in_body: false,
        braces: 0,
        comps: Seq::empty(),
    }
}

/// One line of input. Inside a module body the braces of the line are counted
/// first: when they close the module, the component (if it has a name) is
/// emitted and the name, body and flag are reset, but the channel is kept;
/// otherwise the raw line joins the body. Outside a body, the trimmed line may
/// set the name, the channel or the flag, or open a module. `None` when the
/// brace count would drop below zero.
pub open spec fn parse_step(st: SParse, line: Seq<char>) -> Option<SParse> {
    let t = trim(line);
    if st.in_body {
        let b = st.braces + count_char(line, '{') - count_char(line, '}');
        if b < 0 {
            None
        } else if b == 0 {
            Some(
                SParse {
                    name: Seq::empty(),
                    feature: None,
                    body: Seq::empty(),
                    in_body: false,
                    braces: 0,
                    comps: if st.name.len() > 0 {
                        st.comps.push(
                            SComponent {
                                name: st.name,
                                channel: st.channel,
                                feature: st.feature,
                                body: st.body,
                            },
                        )
                    } else {
                        st.comps
                    },
                    ..st
                },
            )
        } else {
            Some(SParse { braces: b, body: st.body + line + seq!['\n'], ..st })
        }
    } else if starts_with(t, "#[component(name = \""@) {
        Some(SParse { name: quoted(t), ..st })
    } else if t == "#[channel = \"Stable\"]"@ {
        Some(SParse { channel: Channel::Stable, ..st })
    } else if t == "#[channel = \"Nightly\"]"@ {
        Some(SParse { channel: Channel::Nightly, ..st })
    } else if starts_with(t, "#[feature(flag = \""@) {
        Some(SParse { feature: Some(quoted(t)), ..st })
    } else if starts_with(t, "module "@) && ends_with(t, '{') {
        Some(SParse { in_body: true, braces: 1, ..st })
    } else {
        Some(st)
    }
}

pub open spec fn parse_lines(st: SParse, lines: Seq<Seq<char>>) -> Option<SParse>
    decreases lines.len(),
{
    if lines.len() == 0 {
        Some(st)
    } else {
        match parse_step(st, lines[0]) {
            Some(st2) => parse_lines(st2, lines.drop_first()),
            None => None,
        }
    }
}

/// The components of a source text, in order; `None` when a module body closes
/// more braces than it opened.
pub open spec fn parse_source(s: Seq<char>) -> Option<Seq<SComponent>> {
    match parse_lines(parse_start(), text_lines(s)) {
        Some(st) => Some(st.comps),
        None => None,
    }
}

/// The total length of a sequence of lines.
pub open spec fn total_len(ls: Seq<Seq<char>>) -> int
    decreases ls.len(),
{
    if ls.len() == 0 {
        0
    } else {
        ls[0].len() + total_len(ls.drop_first())
    }
}

proof fn lemma_total_nonneg(ls: Seq<Seq<char>>)
    ensures
        total_len(ls) >= 0,
    decreases ls.len(),
{
    if ls.len() > 0 {
        lemma_total_nonneg(ls.drop_first());
    }
}

proof fn lemma_count_le(s: Seq<char>, c: char)
    ensures
        count_char(s, c) <= s.len(),
    decreases s.len(),
{
    if s.len() > 0 {
        lemma_count_le(s.drop_last(), c);
    }
}

proof fn lemma_lines_total(s: Seq<char>, i: int)
    requires
        0 <= i,
    ensures
        total_len(text_lines_from(s, i)) <= if i <= s.len() { s.len() - i } else { 0 },
    decreases s.len() - i,
{
    if i < s.len() {
        let j = next_char_at(s, '\n', i);
        lemma_next_char_bounds(s, '\n', i);
        let ls = text_lines_from(s, i);
        if j >= s.len() {
            assert(ls.drop_first() =~= Seq::<Seq<char>>::empty());
            assert(total_len(ls.drop_first()) == 0);
            assert(ls[0].len() == s.len() - i);
        } else {
            lemma_lines_total(s, j + 1);
            assert(ls.drop_first() =~= text_lines_from(s, j + 1));
            assert(ls[0].len() <= j - i);
        }
    }
}

/// The exec state of the parser.
struct ParseCursor {
    name: Vec<char>,
    channel: Channel,
    feature: Option<Vec<char>>,
    body: Vec<char>,
    in_body: bool,
    braces: usize,
    comps: Vec<ArcaeaComponent>,
}

pub open spec fn opt_chars_view(o: Option<Vec<char>>) -> Option<Seq<char>> {
    match o {
        Some(v) => Some(v@),
        None => None,
    }
}

impl ParseCursor {
    spec fn view(&self) -> SParse {
        SParse {
            name: self.name@,
            channel: self.channel,
            feature: opt_chars_view(self.feature),
            body: self.body@,
            in_body: self.in_body,
            braces: self.braces as int,
            comps: comps_view(self.comps@),
        }
    }
}

fn opt_string(o: &Option<Vec<char>>) -> (r: Option<String>)
    ensures
        opt_str_view(r) == opt_chars_view(*o),
{
    match o {
        Some(v) => Some(string_from_chars(v.as_slice())),
        None => None,
    }
}

/// Feeds one line to the parser; `false` when its braces would make the count
/// negative, and then the cursor is left as it was.
fn step_line(cur: &mut ParseCursor, line: &Vec<char>, p: &[Vec<char>; 5]) -> (ok: bool)
    requires
        p[0]@ == "#[component(name = \""@,
        p[1]@ == "#[channel = \"Stable\"]"@,
        p[2]@ == "#[channel = \"Nightly\"]"@,
        p[3]@ == "#[feature(flag = \""@,
        p[4]@ == "module "@,
        old(cur).braces + line@.len() <= usize::MAX,
    ensures
        ok == parse_step(old(cur).view(), line@) is Some,
        ok ==> final(cur).view() == parse_step(old(cur).view(), line@)->Some_0,
        final(cur).braces <= old(cur).braces + line@.len(),
{
    let ghost st = cur.view();
    let t = x_trim(line);
    if cur.in_body {
        let opens = x_count(line, '{');
        let closes = x_count(line, '}');
        let up = cur.braces + opens;
        if up < closes {
            return false;
        }
        let b = up - closes;
        if b == 0 {
            if cur.name.len() > 0 {
                let comp = ArcaeaComponent {
                    name: string_from_chars(cur.name.as_slice()),
                    channel: cur.channel,
                    feature_flag: opt_string(&cur.feature),
                    code_body: string_from_chars(cur.body.as_slice()),
                };
                let ghost before = cur.comps@;
                cur.comps.push(comp);
                proof {
                    assert(comps_view(cur.comps@) =~= comps_view(before).push(comp.view()));
                }
            }
            cur.name = Vec::new();
            cur.feature = None;
            cur.body = Vec::new();
            cur.in_body = false;
            cur.braces = 0;
            proof {
                assert(cur.view().name =~= Seq::<char>::empty());
                assert(cur.view().body =~= Seq::<char>::empty());
                assert(b as int == st.braces + count_char(line@, '{') - count_char(line@, '}'));
                assert(cur.view().comps == parse_step(st, line@)->Some_0.comps);
                assert(cur.view() == parse_step(st, line@)->Some_0);
            }
            return true;
        }
        cur.braces = b;
        let mut body: Vec<char> = Vec::new();
        std::mem::swap(&mut body, &mut cur.body);
        let mut k: usize = 0;
        let ghost body0 = body@;
        while k < line.len()
            invariant
                k <= line@.len(),
                body@ == body0 + line@.take(k as int),
            decreases line@.len() - k,
        {
            body.push(line[k]);
            assert(line@.take(k + 1) =~= line@.take(k as int).push(line@[k as int]));
            k = k + 1;
        }
        body.push('\n');
        cur.body = body;
        proof {
            assert(line@.take(line@.len() as int) =~= line@);
            assert(cur.body@ =~= body0 + line@ + seq!['\n']);
            assert(cur.view() == parse_step(st, line@)->Some_0);
        }
        return true;
    }
    if x_starts_with(&t, &p[0]) {
        cur.name = x_quoted(&t);
        assert(cur.view() == parse_step(st, line@)->Some_0);
    } else if x_equals(&t, &p[1]) {
        cur.channel = Channel::Stable;
        assert(cur.view() == parse_step(st, line@)->Some_0);
    } else if x_equals(&t, &p[2]) {
        cur.channel = Channel::Nightly;
        assert(cur.view() == parse_step(st, line@)->Some_0);
    } else if x_starts_with(&t, &p[3]) {
        let q = x_quoted(&t);
        cur.feature = Some(q);
        assert(cur.view() == parse_step(st, line@)->Some_0);
    } else if x_starts_with(&t, &p[4]) && t.len() > 0 && t[t.len() - 1] == '{' {
        cur.in_body = true;
        cur.braces = 1;
        assert(cur.view() == parse_step(st, line@)->Some_0);
    } else {
        assert(cur.view() == parse_step(st, line@)->Some_0);
    }
    true
}

/// Reads the components of an Arcaea source text, line by line: the
/// `#[component(name = "..")]`, `#[channel = ".."]` and `#[feature(flag = "..")]`
/// lines before a `module .. {` line describe the component, and the lines up
/// to the brace that closes the module form its body. `None` when a module body
/// closes more braces than it opened.
pub fn try_parse_arcaea_source(source: &str) -> (r: Option<Vec<ArcaeaComponent>>)
    ensures
        match r {
            Some(v) => parse_source(source@) == Some(comps_view(v@)),
            None => parse_source(source@) is None,
        },
{
    let chars = chars_of(source);
    let n_chars = chars.len();
    let lines = split_lines(&chars);
    let p: [Vec<char>; 5] = [
        chars_of("#[component(name = \""),
        chars_of("#[channel = \"Stable\"]"),
        chars_of("#[channel = \"Nightly\"]"),
        chars_of("#[feature(flag = \""),
        chars_of("module "),
    ];
    let mut cur = ParseCursor {
        name: Vec::new(),
        channel: Channel::Stable,
        feature: None,
        body: Vec::new(),
        in_body: false,
        braces: 0,
        comps: Vec::new(),
    };
    let ghost ls = lines_view(lines@);
    proof {
        assert(cur.view().name =~= parse_start().name);
        assert(cur.view().body =~= parse_start().body);
        assert(cur.view().comps =~= parse_start().comps);
        assert(ls.skip(0) =~= ls);
        lemma_lines_total(chars@, 0);
    }
    let mut i: usize = 0;
    while i < lines.len()
        invariant
            i <= lines@.len(),
            ls == lines_view(lines@),
            ls == text_lines(source@),
            chars@ == source@,
            chars@.len() == n_chars,
            p[0]@ == "#[component(name = \""@,
            p[1]@ == "#[channel = \"Stable\"]"@,
            p[2]@ == "#[channel = \"Nightly\"]"@,
            p[3]@ == "#[feature(flag = \""@,
            p[4]@ == "module "@,
            parse_lines(parse_start(), ls) == parse_lines(cur.view(), ls.skip(i as int)),
            cur.braces + total_len(ls.skip(i as int)) <= chars@.len(),
        decreases lines@.len() - i,
    {
        let ghost rest = ls.skip(i as int);
        proof {
            assert(rest[0] == lines@[i as int]@);
            assert(rest.drop_first() =~= ls.skip(i + 1));
            lemma_total_nonneg(ls.skip(i + 1));
            assert(total_len(rest) == rest[0].len() + total_len(rest.drop_first()));
            assert(cur.braces + lines@[i as int]@.len() <= chars@.len());
        }
        if !step_line(&mut cur, &lines[i], &p) {
            return None;
        }
        i = i + 1;
    }
    proof {
        assert(ls.skip(i as int) =~= Seq::<Seq<char>>::empty());
    }
    Some(cur.comps)
}

/// Reads the components of an Arcaea source text whose module bodies never
/// close more braces than they open.
pub fn parse_arcaea_source(source: &str) -> (r: Vec<ArcaeaComponent>)
    requires
        parse_source(source@) is Some,
    ensures
        parse_source(source@) == Some(comps_view(r@)),
{
    match try_parse_arcaea_source(source) {
        Some(v) => v,
        None => Vec::new(),
    }
}

// ---------------------------------------------------------------------------
// Pruning against the environment.
// ---------------------------------------------------------------------------

pub open spec fn features_view(v: Seq<String>) -> Seq<Seq<char>> {
    v.map_values(|f: String| f@)
}

/// The status under which Nightly components are removed.
pub open spec fn wave_status() -> Seq<char> {
    "DeepSpace_Wave_Active"@
}

pub open spec fn nightly_reason() -> Seq<char> {
    "FSM 協議：深空波動期強制剔除 Nightly 組件"@
}

pub open spec fn flag_reason(flag: Seq<char>) -> Seq<char> {
    "特性開關 ["@ + flag + "] 未在環境配置中開啟"@
}

/// Why a component is removed, if it is: a feature flag that the environment
/// does not enable, or else a Nightly channel during the wave status.
pub open spec fn prune_reason(c: SComponent, status: Seq<char>, features: Seq<Seq<char>>) -> Option<Seq<char>> {
    match c.feature {
        Some(flag) if !features.contains(flag) => Some(flag_reason(flag)),
        _ => if status == wave_status() && c.channel == Channel::Nightly {
            Some(nightly_reason())
        } else {
            None
        },
    }
}

/// The line logged about one component.
pub open spec fn verdict_line(c: SComponent, status: Seq<char>, features: Seq<Seq<char>>) -> Seq<char> {
    match prune_reason(c, status, features) {
        None => "[FSM] ✅ 組件 ["@ + c.name + "] 驗證通過，保留。"@,
        Some(reason) => "[FSM] ❌ 組件 ["@ + c.name + "] 被物理裁剪。原因: "@ + reason,
    }
}

/// The components that survive, in their order.
pub open spec fn survivors(cs: Seq<SComponent>, status: Seq<char>, features: Seq<Seq<char>>) -> Seq<SComponent>
    decreases cs.len(),
{
    if cs.len() == 0 {
        Seq::empty()
    } else {
        let rest = survivors(cs.drop_last(), status, features);
        if prune_reason(cs.last(), status, features) is None {
            rest.push(cs.last())
        } else {
            rest
        }
    }
}

/// The lines that pruning logs: two header lines, then one line per component.
pub open spec fn prune_log(cs: Seq<SComponent>, status: Seq<char>, features: Seq<Seq<char>>) -> Seq<Seq<char>> {
    seq!["[FSM] 開始驗證組件拓撲..."@, "[FSM] 環境狀態: "@ + status]
        + cs.map_values(|c: SComponent| verdict_line(c, status, features))
}

fn x_contains(v: &Vec<String>, x: &String) -> (r: bool)
    ensures
        r == features_view(v@).contains(x@),
{
    let mut i: usize = 0;
    while i < v.len()
        invariant
            i <= v@.len(),
            forall|j: int| 0 <= j < i ==> v@[j]@ != x@,
        decreases v@.len() - i,
    {
        if v[i] == *x {
            assert(features_view(v@)[i as int] == x@);
            return true;
        }
        i = i + 1;
    }
    proof {
        if features_view(v@).contains(x@) {
            let j = choose|j: int| 0 <= j < features_view(v@).len() && features_view(v@)[j] == x@;
            assert(v@[j]@ == x@);
        }
    }
    false
}

/// Checks each component against the environment: a component whose feature
/// flag the environment does not enable, or a Nightly component while the status
/// is `DeepSpace_Wave_Active`, is removed. Gives the survivors in their order and
/// the lines of the log.
pub fn fsm_prune_components(components: Vec<ArcaeaComponent>, env: &EnvironmentConfig) -> (r: (
    Vec<ArcaeaComponent>,
    Vec<String>,
))
    ensures
        comps_view(r.0@) == survivors(comps_view(components@), env.status@, features_view(env.enabled_features@)),
        r.1@.map_values(|l: String| l@) == prune_log(comps_view(components@), env.status@, features_view(env.enabled_features@)),
{
    let ghost cs = comps_view(components@);
    let ghost status = env.status@;
    let ghost features = features_view(env.enabled_features@);
    let mut log: Vec<String> = Vec::new();
    log.push(lit("[FSM] 開始驗證組件拓撲..."));
    log.push(concat(lit("[FSM] 環境狀態: "), env.status.as_str()));
    let is_wave_active = env.status == lit("DeepSpace_Wave_Active");
    let mut kept: Vec<ArcaeaComponent> = Vec::new();
    let n = components.len();
    let mut i: usize = 0;
    proof {
        assert(log@.map_values(|l: String| l@) =~= prune_log(cs.take(0), status, features));
        assert(comps_view(kept@) =~= survivors(cs.take(0), status, features));
    }
    let mut items = components;
    while i < n
        invariant
            n == cs.len(),
            i <= n,
            items@.len() == n - i,
            forall|j: int| 0 <= j < n - i ==> #[trigger] items@[j].view() == cs[i + j],
            is_wave_active == (status == wave_status()),
            status == env.status@,
            features == features_view(env.enabled_features@),
            log@.map_values(|l: String| l@) == prune_log(cs.take(i as int), status, features),
            comps_view(kept@) == survivors(cs.take(i as int), status, features),
        decreases n - i,
    {
        let ghost items0 = items@;
        let comp = items.remove(0);
        proof {
            assert(items0[0].view() == cs[i + 0]);
            assert(comp.view() == cs[i as int]);
            assert forall|j: int| 0 <= j < n - (i + 1) implies #[trigger] items@[j].view() == cs[i + 1 + j] by {
                assert(items@[j] == items0[j + 1]);
                assert(items0[j + 1].view() == cs[i + (j + 1)]);
            }
        }
        let mut survive = true;
        let mut reason = String::new();
        if is_wave_active && comp.channel == Channel::Nightly {
            survive = false;
            reason = lit("FSM 協議：深空波動期強制剔除 Nightly 組件");
        }
        match &comp.feature_flag {
            Some(flag) => {
                if !x_contains(&env.enabled_features, flag) {
                    survive = false;
                    reason = concat(concat(lit("特性開關 ["), flag.as_str()), "] 未在環境配置中開啟");
                }
            },
            None => {},
        }
        proof {
            assert(survive == (prune_reason(cs[i as int], status, features) is None));
            assert(!survive ==> reason@ == prune_reason(cs[i as int], status, features)->Some_0);
            assert(cs.take(i + 1).drop_last() =~= cs.take(i as int));
            assert(cs.take(i + 1).last() == cs[i as int]);
        }
        let ghost log0 = log@;
        if survive {
            log.push(concat(concat(lit("[FSM] ✅ 組件 ["), comp.name.as_str()), "] 驗證通過，保留。"));
            let ghost kept0 = kept@;
            kept.push(comp);
            proof {
                assert(comps_view(kept@) =~= comps_view(kept0).push(cs[i as int]));
            }
        } else {
            log.push(concat(concat(concat(lit("[FSM] ❌ 組件 ["), comp.name.as_str()), "] 被物理裁剪。原因: "), reason.as_str()));
        }
        proof {
            let lines = log@.map_values(|l: String| l@);
            let want = prune_log(cs.take(i + 1), status, features);
            assert(log0.map_values(|l: String| l@).len() == log0.len());
            assert(prune_log(cs.take(i as int), status, features).len() == 2 + i);
            assert(want.len() == 3 + i);
            assert(log@.len() == log0.len() + 1);
            assert(lines.len() == want.len());
            assert forall|k: int| 0 <= k < lines.len() implies lines[k] == want[k] by {
                if k < lines.len() - 1 {
                    assert(log0.map_values(|l: String| l@)[k] == prune_log(cs.take(i as int), status, features)[k]);
                }
            }
            assert(lines =~= want);
        }
        i = i + 1;
    }
    proof {
        assert(cs.take(n as int) =~= cs);
    }
    (kept, log)
}

/// Padding of Unicode `White_Space` characters: tab, line feed, vertical tab,
/// form feed, carriage return, space, next line, no-break space, ogham space
/// mark, the spaces from en quad to hair space, line and paragraph separators,
/// narrow no-break space, medium mathematical space and ideographic space.
pub open spec fn white_padding(w: Seq<char>) -> bool {
    forall|k: int|
        0 <= k < w.len() ==> {
            let c = #[trigger] w[k];
            c == '\t' || c == '\n' || c == '\u{b}' || c == '\u{c}' || c == '\r' || c == ' ' || c == '\u{85}'
                || c == '\u{a0}' || c == '\u{1680}' || ('\u{2000}' <= c && c <= '\u{200a}') || c == '\u{2028}'
                || c == '\u{2029}' || c == '\u{202f}' || c == '\u{205f}' || c == '\u{3000}'
        }
}

proof fn lemma_trim_start_all_ws(w: Seq<char>)
    requires
        forall|k: int| 0 <= k < w.len() ==> is_ws(#[trigger] w[k]),
    ensures
        trim_start(w) == Seq::<char>::empty(),
    decreases w.len(),
{
    if w.len() > 0 {
        assert forall|k: int| 0 <= k < w.drop_first().len() implies is_ws(#[trigger] w.drop_first()[k]) by {
            assert(w.drop_first()[k] == w[k + 1]);
        }
        lemma_trim_start_all_ws(w.drop_first());
    }
}

proof fn lemma_trim_start_append_ws(x: Seq<char>, w: Seq<char>)
    requires
        forall|k: int| 0 <= k < w.len() ==> is_ws(#[trigger] w[k]),
    ensures
        trim_start(x + w) == trim_start(x) + w || (trim_start(x) == Seq::<char>::empty() && trim_start(x + w)
            == Seq::<char>::empty()),
    decreases x.len(),
{
    if x.len() == 0 {
        assert(x + w =~= w);
        lemma_trim_start_all_ws(w);
    } else if is_ws(x[0]) {
        assert((x + w)[0] == x[0]);
        assert((x + w).drop_first() =~= x.drop_first() + w);
        lemma_trim_start_append_ws(x.drop_first(), w);
    } else {
        assert((x + w)[0] == x[0]);
    }
}

/// Trimming ignores white-space padding on either side: `trim` removes exactly
/// the leading and trailing Unicode `White_Space`, as `str::trim` does.
pub proof fn law_trim_ignores_padding(w1: Seq<char>, s: Seq<char>, w2: Seq<char>)
    requires
        white_padding(w1),
        white_padding(w2),
    ensures
        trim(w1 + s + w2) == trim(s),
{
    assert forall|k: int| 0 <= k < w1.len() implies is_ws(#[trigger] w1[k]) by {
        let c = w1[k];
        assert(white_padding(w1));
    }
    assert forall|k: int| 0 <= k < w2.len() implies is_ws(#[trigger] w2[k]) by {
        let c = w2[k];
        assert(white_padding(w2));
    }
    let x = w1 + s + w2;
    lemma_trim_start_skip(x, w1.len() as int);
    assert(x.subrange(w1.len() as int, x.len() as int) =~= s + w2);
    lemma_trim_start_append_ws(s, w2);
    let ts = trim_start(s);
    if trim_start(s + w2) == ts + w2 {
        let y = ts + w2;
        assert forall|k: int| ts.len() <= k < y.len() implies is_ws(y[k]) by {
            assert(y[k] == w2[k - ts.len()]);
        }
        lemma_trim_end_cut(y, ts.len() as int);
        assert(y.take(ts.len() as int) =~= ts);
    }
}

/// Outside a module body, a line of annotated source means what it means
/// without white-space padding: indenting an attribute or `module` line with
/// tabs, spaces or other white space changes nothing.
pub proof fn law_padding_outside_modules_is_ignored(st: SParse, w1: Seq<char>, line: Seq<char>, w2: Seq<char>)
    requires
        !st.in_body,
        white_padding(w1),
        white_padding(w2),
    ensures
        parse_step(st, w1 + line + w2) == parse_step(st, line),
{
    law_trim_ignores_padding(w1, line, w2);
}

/// The survivors of pruning are exactly the components, in order, that meet
/// both rules: while the status is `DeepSpace_Wave_Active` no Nightly component
/// survives, whatever its feature flag; and a component with a feature flag
/// survives only if the environment enables that flag.
pub proof fn law_survivors_meet_both_rules(cs: Seq<SComponent>, status: Seq<char>, features: Seq<Seq<char>>)
    ensures
        forall|i: int|
            0 <= i < survivors(cs, status, features).len() ==> {
                let s = #[trigger] survivors(cs, status, features)[i];
                &&& cs.contains(s)
                &&& !(status == "DeepSpace_Wave_Active"@ && s.channel == Channel::Nightly)
                &&& (s.feature matches Some(f) ==> features.contains(f))
            },
        forall|i: int|
            0 <= i < cs.len() && !(status == "DeepSpace_Wave_Active"@ && cs[i].channel == Channel::Nightly) && (
            cs[i].feature matches Some(f) ==> features.contains(f)) ==> survivors(cs, status, features).contains(
                #[trigger] cs[i],
            ),
        survivors(cs, status, features).len() <= cs.len(),
    decreases cs.len(),
{
    if cs.len() > 0 {
        let prev = cs.drop_last();
        law_survivors_meet_both_rules(prev, status, features);
        let rest = survivors(prev, status, features);
        let cur = survivors(cs, status, features);
        assert forall|i: int| 0 <= i < cur.len() implies {
            let s = #[trigger] cur[i];
            &&& cs.contains(s)
            &&& !(status == "DeepSpace_Wave_Active"@ && s.channel == Channel::Nightly)
            &&& (s.feature matches Some(f) ==> features.contains(f))
        } by {
            if i < rest.len() {
                assert(cur[i] == rest[i]);
                let j = choose|j: int| 0 <= j < prev.len() && prev[j] == rest[i];
                assert(cs[j] == prev[j]);
            } else {
                assert(cur[i] == cs.last());
                assert(cs[cs.len() - 1] == cs.last());
            }
        }
        assert forall|i: int|
            0 <= i < cs.len() && !(status == "DeepSpace_Wave_Active"@ && cs[i].channel == Channel::Nightly) && (
            cs[i].feature matches Some(f) ==> features.contains(f)) implies cur.contains(#[trigger] cs[i]) by {
            if i < cs.len() - 1 {
                assert(prev[i] == cs[i]);
                assert(rest.contains(prev[i]));
                let j = choose|j: int| 0 <= j < rest.len() && rest[j] == prev[i];
                assert(cur[j] == rest[j]);
            } else {
                assert(cs[i] == cs.last());
                assert(prune_reason(cs.last(), status, features) is None);
                assert(cur[cur.len() - 1] == cs.last());
            }
        }
    }
}

/// While the status is `DeepSpace_Wave_Active`, a Nightly component whose
/// feature flag (if any) is enabled is logged as removed by the wave rule.
pub proof fn law_wave_removes_nightly(c: SComponent, features: Seq<Seq<char>>)
    requires
        c.channel == Channel::Nightly,
        c.feature matches Some(f) ==> features.contains(f),
    ensures
        verdict_line(c, "DeepSpace_Wave_Active"@, features) == "[FSM] ❌ 組件 ["@ + c.name
            + "] 被物理裁剪。原因: FSM 協議：深空波動期強制剔除 Nightly 組件"@,
{
    reveal_strlit("] 被物理裁剪。原因: ");
    reveal_strlit("FSM 協議：深空波動期強制剔除 Nightly 組件");
    reveal_strlit("] 被物理裁剪。原因: FSM 協議：深空波動期強制剔除 Nightly 組件");
    assert("[FSM] ❌ 組件 ["@ + c.name + "] 被物理裁剪。原因: "@ + "FSM 協議：深空波動期強制剔除 Nightly 組件"@
        =~= "[FSM] ❌ 組件 ["@ + c.name + "] 被物理裁剪。原因: FSM 協議：深空波動期強制剔除 Nightly 組件"@);
}

/// Every surviving component passes the checks: no disabled feature flag, and
/// no Nightly channel during the wave status.
pub proof fn law_survivors_pass(cs: Seq<SComponent>, status: Seq<char>, features: Seq<Seq<char>>)
    ensures
        forall|i: int| 0 <= i < survivors(cs, status, features).len() ==> prune_reason(
            #[trigger] survivors(cs, status, features)[i],
            status,
            features,
        ) is None,
    decreases cs.len(),
{
    if cs.len() > 0 {
        law_survivors_pass(cs.drop_last(), status, features);
    }
}

/// A component that passes the checks survives, in its place among the others.
pub proof fn law_passing_components_survive(cs: Seq<SComponent>, status: Seq<char>, features: Seq<Seq<char>>)
    requires
        forall|i: int| 0 <= i < cs.len() ==> prune_reason(#[trigger] cs[i], status, features) is None,
    ensures
        survivors(cs, status, features) == cs,
    decreases cs.len(),
{
    if cs.len() > 0 {
        law_passing_components_survive(cs.drop_last(), status, features);
        assert(cs.drop_last().push(cs.last()) =~= cs);
    }
}

/// Pruning twice removes nothing more than pruning once.
pub proof fn law_prune_idempotent(cs: Seq<SComponent>, status: Seq<char>, features: Seq<Seq<char>>)
    ensures
        survivors(survivors(cs, status, features), status, features) == survivors(cs, status, features),
{
    law_survivors_pass(cs, status, features);
    law_passing_components_survive(survivors(cs, status, features), status, features);
}

/// Every component that the parser emits has a name: a module without a
/// `#[component(name = ..)]` line before it is dropped.
pub proof fn law_parsed_components_are_named(s: Seq<char>)
    ensures
        parse_source(s) matches Some(cs) ==> forall|i: int| 0 <= i < cs.len() ==> (#[trigger] cs[i]).name.len() > 0,
{
    lemma_parse_keeps_named(parse_start(), text_lines(s));
}

proof fn lemma_parse_keeps_named(st: SParse, lines: Seq<Seq<char>>)
    requires
        forall|i: int| 0 <= i < st.comps.len() ==> (#[trigger] st.comps[i]).name.len() > 0,
    ensures
        parse_lines(st, lines) matches Some(end) ==> forall|i: int| 0 <= i < end.comps.len() ==> (
        #[trigger] end.comps[i]).name.len() > 0,
    decreases lines.len(),
{
    if lines.len() > 0 {
        match parse_step(st, lines[0]) {
            Some(st2) => {
                assert forall|i: int| 0 <= i < st2.comps.len() implies (#[trigger] st2.comps[i]).name.len() > 0 by {
                    if i < st.comps.len() {
                        assert(st2.comps[i] == st.comps[i]);
                    }
                }
                lemma_parse_keeps_named(st2, lines.drop_first());
            },
            None => {},
        }
    }
}

// ---------------------------------------------------------------------------
// Code generation.
// ---------------------------------------------------------------------------

pub open spec fn generated_header() -> Seq<char> {
    "// ==========================================\n"@ + "// 由 arcaea-rebuild (ACTP 協議) 自動生成\n"@
        + "// 警告：請勿手動修改此文件\n"@ + "// ==========================================\n\n"@
}

/// The Rust module that a component becomes.
pub open spec fn module_text(c: SComponent) -> Seq<char> {
    "pub mod "@ + c.name + " {\n"@ + c.body + "}\n\n"@
}

pub open spec fn modules_text(cs: Seq<SComponent>) -> Seq<char>
    decreases cs.len(),
{
    if cs.len() == 0 {
        Seq::empty()
    } else {
        modules_text(cs.drop_last()) + module_text(cs.last())
    }
}

/// The generated Rust source: a warning header, then one `pub mod` per
/// component, in order, holding the component's body.
pub fn generate_rust_code(components: &[ArcaeaComponent]) -> (r: String)
    ensures
        r@ == generated_header() + modules_text(comps_view(components@)),
{
    let mut code = lit("// ==========================================\n");
    code = concat(code, "// 由 arcaea-rebuild (ACTP 協議) 自動生成\n");
    code = concat(code, "// 警告：請勿手動修改此文件\n");
    code = concat(code, "// ==========================================\n\n");
    let ghost cs = comps_view(components@);
    let mut i: usize = 0;
    proof {
        assert(cs.take(0) =~= Seq::<SComponent>::empty());
        assert(code@ =~= generated_header() + modules_text(cs.take(0)));
    }
    while i < components.len()
        invariant
            i <= components@.len(),
            cs == comps_view(components@),
            code@ == generated_header() + modules_text(cs.take(i as int)),
        decreases components@.len() - i,
    {
        let comp = &components[i];
        code = concat(code, "pub mod ");
        code = concat(code, comp.name.as_str());
        code = concat(code, " {\n");
        code = concat(code, comp.code_body.as_str());
        code = concat(code, "}\n\n");
        proof {
            assert(cs.take(i + 1).drop_last() =~= cs.take(i as int));
            assert(cs.take(i + 1).last() == cs[i as int]);
            assert(code@ =~= generated_header() + modules_text(cs.take(i + 1)));
        }
        i = i + 1;
    }
    proof {
        assert(cs.take(components@.len() as int) =~= cs);
    }
    code
}

} // verus!
