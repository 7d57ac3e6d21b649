//! Helpers for checking the structure of a markdown document: its header
//! lines, the text of a section, keywords and links.

use vstd::prelude::*;

verus! {

// ---------------------------------------------------------------------------
// Lines
// ---------------------------------------------------------------------------

/// `s` split at every '\n' (the pieces between separators, possibly empty).
pub open spec fn split_nl(s: Seq<char>) -> Seq<Seq<char>>
    decreases s.len(),
{
    if s.len() == 0 {
        seq![Seq::empty()]
    } else {
        let p = split_nl(s.drop_last());
        if s.last() == '\n' {
            p.push(Seq::empty())
        } else {
            p.update(p.len() - 1, p.last().push(s.last()))
        }
    }
}

/// A line without its trailing carriage return, if it has one.
pub open spec fn strip_cr(l: Seq<char>) -> Seq<char> {
    if l.len() > 0 && l.last() == '\r' {
        l.drop_last()
    } else {
        l
    }
}

/// The lines of `s`, as `str::lines` yields them: split at '\n', each with
/// a trailing '\r' removed, and no empty line after a final '\n'.
pub open spec fn lines_of(s: Seq<char>) -> Seq<Seq<char>> {
    let parts = split_nl(s);
    let kept = if parts.last().len() == 0 {
        parts.drop_last()
    } else {
        parts
    };
    kept.map_values(|l: Seq<char>| strip_cr(l))
}

proof fn lemma_split_nl_nonempty(s: Seq<char>)
    ensures
        split_nl(s).len() >= 1,
    decreases s.len(),
{
    if s.len() > 0 {
        lemma_split_nl_nonempty(s.drop_last());
    }
}

// ---------------------------------------------------------------------------
// Headers
// ---------------------------------------------------------------------------

/// Unicode White_Space, as `char::is_whitespace` tests it.
pub open spec fn is_ws(c: char) -> bool {
    ('\u{9}' <= c && c <= '\u{d}') || c == ' ' || c == '\u{85}' || c == '\u{a0}' || c == '\u{1680}'
        || ('\u{2000}' <= c && c <= '\u{200a}') || c == '\u{2028}' || c == '\u{2029}' || c == '\u{202f}'
        || c == '\u{205f}' || c == '\u{3000}'
}

pub open spec fn trim_start(l: Seq<char>) -> Seq<char>
    decreases l.len(),
{
    if l.len() > 0 && is_ws(l[0]) {
        trim_start(l.drop_first())
    } else {
        l
    }
}

pub open spec fn trim_end(l: Seq<char>) -> Seq<char>
    decreases l.len(),
{
    if l.len() > 0 && is_ws(l.last()) {
        trim_end(l.drop_last())
    } else {
        l
    }
}

/// `l` without leading and trailing whitespace.
pub open spec fn trim(l: Seq<char>) -> Seq<char> {
    trim_end(trim_start(l))
}

/// `l` without its leading '#' characters.
pub open spec fn strip_hashes(l: Seq<char>) -> Seq<char>
    decreases l.len(),
{
    if l.len() > 0 && l[0] == '#' {
        strip_hashes(l.drop_first())
    } else {
        l
    }
}

/// A header line starts with '#'.
pub open spec fn is_header(l: Seq<char>) -> bool {
    l.len() > 0 && l[0] == '#'
}

/// Header level: the number of leading '#'.
pub open spec fn header_level(l: Seq<char>) -> int {
    l.len() - strip_hashes(l).len()
}

/// Title of a header line.
pub open spec fn header_text(l: Seq<char>) -> Seq<char> {
    trim(strip_hashes(l))
}

pub open spec fn is_header_named(l: Seq<char>, name: Seq<char>) -> bool {
    is_header(l) && header_text(l) == name
}

/// Whether the char is White_Space; see [`is_ws`].
pub fn is_whitespace(c: char) -> (r: bool)
    ensures
        r == is_ws(c),
{
    ('\u{9}' <= c && c <= '\u{d}') || c == ' ' || c == '\u{85}' || c == '\u{a0}' || c == '\u{1680}'
        || ('\u{2000}' <= c && c <= '\u{200a}') || c == '\u{2028}' || c == '\u{2029}' || c == '\u{202f}'
        || c == '\u{205f}' || c == '\u{3000}'
}

proof fn lemma_strip_hashes_suffix(l: Seq<char>)
    ensures
        strip_hashes(l).len() <= l.len(),
        strip_hashes(l) == l.subrange(l.len() - strip_hashes(l).len(), l.len() as int),
        strip_hashes(l).len() > 0 ==> strip_hashes(l)[0] != '#',
        forall|k: int| 0 <= k < l.len() - strip_hashes(l).len() ==> l[k] == '#',
    decreases l.len(),
{
    if l.len() > 0 && l[0] == '#' {
        lemma_strip_hashes_suffix(l.drop_first());
        assert(l.drop_first().subrange(
            l.drop_first().len() - strip_hashes(l.drop_first()).len(),
            l.drop_first().len() as int,
        ) =~= l.subrange(l.len() - strip_hashes(l).len(), l.len() as int));
        assert forall|k: int| 0 <= k < l.len() - strip_hashes(l).len() implies l[k] == '#' by {
            if k > 0 {
                assert(l[k] == l.drop_first()[k - 1]);
            }
        }
    } else {
        assert(l.subrange(0, l.len() as int) =~= l);
    }
}

proof fn lemma_trim_start_suffix(l: Seq<char>)
    ensures
        trim_start(l).len() <= l.len(),
        trim_start(l) == l.subrange(l.len() - trim_start(l).len(), l.len() as int),
        trim_start(l).len() > 0 ==> !is_ws(trim_start(l)[0]),
        forall|k: int| 0 <= k < l.len() - trim_start(l).len() ==> is_ws(#[trigger] l[k]),
    decreases l.len(),
{
    if l.len() > 0 && is_ws(l[0]) {
        lemma_trim_start_suffix(l.drop_first());
        assert(l.drop_first().subrange(
            l.drop_first().len() - trim_start(l.drop_first()).len(),
            l.drop_first().len() as int,
        ) =~= l.subrange(l.len() - trim_start(l).len(), l.len() as int));
        assert forall|k: int| 0 <= k < l.len() - trim_start(l).len() implies is_ws(#[trigger] l[k]) by {
            if k > 0 {
                assert(l[k] == l.drop_first()[k - 1]);
            }
        }
    } else {
        assert(l.subrange(0, l.len() as int) =~= l);
    }
}

proof fn lemma_trim_end_prefix(l: Seq<char>)
    ensures
        trim_end(l).len() <= l.len(),
        trim_end(l) == l.subrange(0, trim_end(l).len() as int),
        trim_end(l).len() > 0 ==> !is_ws(trim_end(l).last()),
        forall|k: int| trim_end(l).len() <= k < l.len() ==> is_ws(#[trigger] l[k]),
    decreases l.len(),
{
    if l.len() > 0 && is_ws(l.last()) {
        lemma_trim_end_prefix(l.drop_last());
        assert(l.drop_last().subrange(0, trim_end(l.drop_last()).len() as int) =~= l.subrange(
            0,
            trim_end(l).len() as int,
        ));
        assert forall|k: int| trim_end(l).len() <= k < l.len() implies is_ws(#[trigger] l[k]) by {
            if k < l.len() - 1 {
                assert(l[k] == l.drop_last()[k]);
            }
        }
    } else {
        assert(l.subrange(0, l.len() as int) =~= l);
    }
}

// ---------------------------------------------------------------------------
// Scanning
// ---------------------------------------------------------------------------

/// The characters of `s`.
pub fn chars_of(s: &str) -> (r: Vec<char>)
    ensures
        r@ == s@,
{
    let n = s.unicode_len();
    let mut out: Vec<char> = Vec::new();
    let mut i: usize = 0;
    while i < n
        invariant
            n == s@.len(),
            i <= n,
            out@ == s@.subrange(0, i as int),
        decreases n - i,
    {
        out.push(s.get_char(i));
        proof {
            assert(out@ =~= s@.subrange(0, i + 1));
        }
        i = i + 1;
    }
    proof {
        assert(s@.subrange(0, n as int) =~= s@);
    }
    out
}

/// End of the line `[a, i)` once a trailing '\r' is dropped.
fn strip_cr_end(chars: &Vec<char>, a: usize, i: usize) -> (e: usize)
    requires
        a <= i <= chars@.len(),
    ensures
        a <= e <= i,
        chars@.subrange(a as int, e as int) == strip_cr(chars@.subrange(a as int, i as int)),
{
    if i > a && chars[i - 1] == '\r' {
        proof {
            assert(chars@.subrange(a as int, i - 1) =~= chars@.subrange(a as int, i as int).drop_last());
        }
        i - 1
    } else {
        i
    }
}

/// Start and end of each line of `chars`, in order; see [`lines_of`].
pub fn line_spans(chars: &Vec<char>) -> (spans: Vec<(usize, usize)>)
    ensures
        spans@.len() == lines_of(chars@).len(),
        forall|k: int|
            0 <= k < spans@.len() ==> {
                &&& (#[trigger] spans@[k]).0 <= spans@[k].1 <= chars@.len()
                &&& chars@.subrange(spans@[k].0 as int, spans@[k].1 as int) == lines_of(chars@)[k]
            },
{
    let n = chars.len();
    let mut spans: Vec<(usize, usize)> = Vec::new();
    let mut a: usize = 0;
    let mut i: usize = 0;
    while i < n
        invariant
            n == chars@.len(),
            a <= i <= n,
            split_nl(chars@.subrange(0, i as int)).len() == spans@.len() + 1,
            split_nl(chars@.subrange(0, i as int)).last() == chars@.subrange(a as int, i as int),
            forall|k: int|
                0 <= k < spans@.len() ==> {
                    &&& (#[trigger] spans@[k]).0 <= spans@[k].1 <= i
                    &&& chars@.subrange(spans@[k].0 as int, spans@[k].1 as int) == strip_cr(
                        split_nl(chars@.subrange(0, i as int))[k],
                    )
                },
        decreases n - i,
    {
        let ghost pre = chars@.subrange(0, i as int);
        let ghost parts = split_nl(pre);
        proof {
            assert(chars@.subrange(0, i + 1).drop_last() =~= pre);
            lemma_split_nl_nonempty(pre);
        }
        if chars[i] == '\n' {
            let e = strip_cr_end(chars, a, i);
            spans.push((a, e));
            a = i + 1;
            proof {
                assert(chars@.subrange(a as int, i + 1) =~= Seq::<char>::empty());
            }
        } else {
            proof {
                assert(chars@.subrange(a as int, i + 1) =~= chars@.subrange(a as int, i as int).push(chars@[i as int]));
            }
        }
        i = i + 1;
    }
    proof {
        assert(chars@.subrange(0, n as int) =~= chars@);
        lemma_split_nl_nonempty(chars@);
    }
    if a < n {
        let e = strip_cr_end(chars, a, n);
        spans.push((a, e));
    }
    proof {
        let parts = split_nl(chars@);
        let kept = if parts.last().len() == 0 {
            parts.drop_last()
        } else {
            parts
        };
        assert(lines_of(chars@) == kept.map_values(|l: Seq<char>| strip_cr(l)));
        assert forall|k: int| 0 <= k < spans@.len() implies {
            &&& (#[trigger] spans@[k]).0 <= spans@[k].1 <= chars@.len()
            &&& chars@.subrange(spans@[k].0 as int, spans@[k].1 as int) == lines_of(chars@)[k]
        } by {
            assert(kept[k] == parts[k]);
        }
    }
    spans
}

/// Level and title span of the line `chars[a..b]` if it is a header.
fn header_of(chars: &Vec<char>, a: usize, b: usize) -> (r: Option<(usize, usize, usize)>)
    requires
        a <= b <= chars@.len(),
    ensures
        r is None <==> !is_header(chars@.subrange(a as int, b as int)),
        r matches Some(h) ==> {
            &&& h.0 as int == header_level(chars@.subrange(a as int, b as int))
            &&& a <= h.1 <= h.2 <= b
            &&& chars@.subrange(h.1 as int, h.2 as int) == header_text(chars@.subrange(a as int, b as int))
        },
{
    let ghost l = chars@.subrange(a as int, b as int);
    if a == b || chars[a] != '#' {
        return None;
    }
    let mut h: usize = a;
    while h < b && chars[h] == '#'
        invariant
            a <= h <= b <= chars@.len(),
            forall|k: int| a <= k < h ==> chars@[k] == '#',
        decreases b - h,
    {
        h = h + 1;
    }
    let ghost sh = strip_hashes(l);
    proof {
        lemma_strip_hashes_suffix(l);
        let m = l.len() - sh.len();
        if h - a < m {
            assert(l[h - a] == '#');
            assert(chars@[h as int] == l[h - a]);
        }
        if h - a > m {
            assert(chars@[a + m] == '#');
            assert(sh[0] == l[m]);
        }
        assert(sh =~= chars@.subrange(h as int, b as int));
    }
    let mut t: usize = h;
    while t < b && is_whitespace(chars[t])
        invariant
            h <= t <= b <= chars@.len(),
            forall|k: int| h <= k < t ==> is_ws(chars@[k]),
        decreases b - t,
    {
        t = t + 1;
    }
    let ghost ts = trim_start(sh);
    proof {
        lemma_trim_start_suffix(sh);
        let m = sh.len() - ts.len();
        if t - h < m {
            assert(is_ws(sh[t - h]));
            assert(chars@[t as int] == sh[t - h]);
        }
        if t - h > m {
            assert(is_ws(chars@[h + m]));
            assert(ts[0] == sh[m]);
        }
        assert(ts =~= chars@.subrange(t as int, b as int));
    }
    let mut e: usize = b;
    while e > t && is_whitespace(chars[e - 1])
        invariant
            t <= e <= b <= chars@.len(),
            forall|k: int| e <= k < b ==> is_ws(chars@[k]),
        decreases e - t,
    {
        e = e - 1;
    }
    proof {
        let te = trim_end(ts);
        lemma_trim_end_prefix(ts);
        let m: int = te.len() as int;
        let d: int = e - t;
        if d > m {
            assert(is_ws(ts[e - t - 1]));
            assert(chars@[e - 1] == ts[e - t - 1]);
        }
        if d < m {
            assert(is_ws(chars@[t + m - 1]));
            assert(te.last() == ts[m - 1]);
        }
        assert(te =~= chars@.subrange(t as int, e as int));
    }
    Some((h - a, t, e))
}

/// Whether `chars[a..b]` spells `name`.
fn span_equals(chars: &Vec<char>, a: usize, b: usize, name: &Vec<char>) -> (r: bool)
    requires
        a <= b <= chars@.len(),
    ensures
        r == (chars@.subrange(a as int, b as int) == name@),
{
    if b - a != name.len() {
        return false;
    }
    let mut i: usize = 0;
    while i < name.len()
        invariant
            b - a == name@.len(),
            a <= b <= chars@.len(),
            i <= name@.len(),
            forall|k: int| 0 <= k < i ==> chars@[a + k] == name@[k],
        decreases name.len() - i,
    {
        if chars[a + i] != name[i] {
            proof {
                assert(chars@.subrange(a as int, b as int)[i as int] != name@[i as int]);
            }
            return false;
        }
        i = i + 1;
    }
    proof {
        assert(chars@.subrange(a as int, b as int) =~= name@);
    }
    true
}

/// Whether some header line of `content` has the title `section_name`.
pub fn section_exists(content: &str, section_name: &str) -> (r: bool)
    ensures
        r == exists|k: int| 0 <= k < lines_of(content@).len() && is_header_named(#[trigger] lines_of(content@)[k], section_name@),
{
    let chars = chars_of(content);
    let name = chars_of(section_name);
    let spans = line_spans(&chars);
    let mut k: usize = 0;
    while k < spans.len()
        invariant
            chars@ == content@,
            name@ == section_name@,
            spans@.len() == lines_of(chars@).len(),
            forall|j: int|
                0 <= j < spans@.len() ==> {
                    &&& (#[trigger] spans@[j]).0 <= spans@[j].1 <= chars@.len()
                    &&& chars@.subrange(spans@[j].0 as int, spans@[j].1 as int) == lines_of(chars@)[j]
                },
            k <= spans@.len(),
            forall|j: int| 0 <= j < k ==> !is_header_named(#[trigger] lines_of(content@)[j], section_name@),
        decreases spans.len() - k,
    {
        let (a, b) = spans[k];
        proof {
            assert(spans@[k as int] == (a, b));
        }
        match header_of(&chars, a, b) {
            Some((_level, ts, te)) => {
                if span_equals(&chars, ts, te, &name) {
                    return true;
                }
            },
            None => {},
        }
        k = k + 1;
    }
    false
}

/// What a scan for a section has gathered after some lines: the section's
/// text so far, whether the scan is inside it and at which header level, and
/// whether the section has ended.
pub struct SectionScan {
    pub text: Seq<char>,
    pub in_section: bool,
    pub level: int,
    pub done: bool,
}

/// Scan of `lines` for the section titled `name`. The section runs from its
/// header line up to the next header of the same or a higher level (fewer or
/// equally many '#'); every line of it is kept with a '\n' after it.
pub open spec fn scan_section(lines: Seq<Seq<char>>, name: Seq<char>) -> SectionScan
    decreases lines.len(),
{
    if lines.len() == 0 {
        SectionScan { text: Seq::empty(), in_section: false, level: 0, done: false }
    } else {
        let st = scan_section(lines.drop_last(), name);
        let l = lines.last();
        if st.done {
            st
        } else if is_header_named(l, name) {
            SectionScan { text: st.text + l.push('\n'), in_section: true, level: header_level(l), done: false }
        } else if is_header(l) && st.in_section && header_level(l) <= st.level {
            SectionScan { done: true, ..st }
        } else if st.in_section {
            SectionScan { text: st.text + l.push('\n'), ..st }
        } else {
            st
        }
    }
}

/// The section of `content` titled `section_name`, header line included, or
/// an empty string if there is none.
pub fn extract_section(content: &str, section_name: &str) -> (r: String)
    ensures
        r@ == scan_section(lines_of(content@), section_name@).text,
{
    let chars = chars_of(content);
    let name = chars_of(section_name);
    let spans = line_spans(&chars);
    let mut out = String::new();
    let mut in_section = false;
    let mut level: usize = 0;
    let mut k: usize = 0;
    proof {
        reveal_strlit("\n");
    }
    while k < spans.len()
        invariant
            chars@ == content@,
            name@ == section_name@,
            "\n"@ == seq!['\n'],
            spans@.len() == lines_of(chars@).len(),
            forall|j: int|
                0 <= j < spans@.len() ==> {
                    &&& (#[trigger] spans@[j]).0 <= spans@[j].1 <= chars@.len()
                    &&& chars@.subrange(spans@[j].0 as int, spans@[j].1 as int) == lines_of(chars@)[j]
                },
            k <= spans@.len(),
            ({
                let st = scan_section(lines_of(content@).subrange(0, k as int), section_name@);
                &&& !st.done
                &&& out@ == st.text
                &&& in_section == st.in_section
                &&& level as int == st.level
            }),
        decreases spans.len() - k,
    {
        let (a, b) = spans[k];
        let ghost lines = lines_of(content@);
        proof {
            assert(spans@[k as int] == (a, b));
            assert(lines.subrange(0, k + 1).drop_last() =~= lines.subrange(0, k as int));
        }
        let header = header_of(&chars, a, b);
        let mut named = false;
        let mut current_level: usize = 0;
        match header {
            Some((lvl, ts, te)) => {
                named = span_equals(&chars, ts, te, &name);
                current_level = lvl;
            },
            None => {},
        }
        if named {
            in_section = true;
            level = current_level;
            out.append(content.substring_char(a, b));
            out.append("\n");
        } else if header.is_some() && in_section && current_level <= level {
            proof {
                lemma_scan_done_stays(lines, section_name@, k as int + 1);
            }
            return out;
        } else if in_section {
            out.append(content.substring_char(a, b));
            out.append("\n");
        }
        proof {
            assert(out@ =~= scan_section(lines.subrange(0, k + 1), section_name@).text);
        }
        k = k + 1;
    }
    proof {
        assert(lines_of(content@).subrange(0, spans@.len() as int) =~= lines_of(content@));
    }
    out
}

proof fn lemma_scan_done_stays(lines: Seq<Seq<char>>, name: Seq<char>, n: int)
    requires
        0 <= n <= lines.len(),
        scan_section(lines.subrange(0, n), name).done,
    ensures
        scan_section(lines, name) == scan_section(lines.subrange(0, n), name),
    decreases lines.len() - n,
{
    if n == lines.len() {
        assert(lines.subrange(0, n) =~= lines);
    } else {
        assert(lines.subrange(0, n + 1).drop_last() =~= lines.subrange(0, n));
        lemma_scan_done_stays(lines, name, n + 1);
    }
}

// ---------------------------------------------------------------------------
// Keywords
// ---------------------------------------------------------------------------

/// The lowercase form of a string, as `str::to_lowercase` maps it.
pub uninterp spec fn lower_of(s: Seq<char>) -> Seq<char>;

/// Relies on `str::to_lowercase`: the result depends on the characters of
/// `s` alone, and the empty string stays empty.
#[verifier::external_body]
fn lowercase(s: &str) -> (r: String)
    ensures
        r@ == lower_of(s@),
        s@.len() == 0 ==> r@.len() == 0,
{
    s.to_lowercase()
}

/// `needle` occurs in `hay` as a contiguous run.
pub open spec fn occurs_in(needle: Seq<char>, hay: Seq<char>) -> bool {
    exists|i: int| 0 <= i && i + needle.len() <= hay.len() && #[trigger] hay.subrange(i, i + needle.len()) == needle
}

/// Whether `needle` occurs in `hay`.
pub fn contains_chars(hay: &Vec<char>, needle: &Vec<char>) -> (r: bool)
    ensures
        r == occurs_in(needle@, hay@),
{
    if needle.len() > hay.len() {
        return false;
    }
    let last = hay.len() - needle.len();
    let mut i: usize = 0;
    loop
        invariant
            hay@.len() <= usize::MAX,
            last + needle@.len() == hay@.len(),
            i <= last,
            forall|j: int| 0 <= j < i ==> #[trigger] hay@.subrange(j, j + needle@.len()) != needle@,
        ensures
            forall|j: int| 0 <= j <= last ==> #[trigger] hay@.subrange(j, j + needle@.len()) != needle@,
        decreases last - i,
    {
        if span_equals(hay, i, i + needle.len(), needle) {
            return true;
        }
        if i == last {
            break;
        }
        i = i + 1;
    }
    proof {
        assert forall|j: int| 0 <= j && j + needle@.len() <= hay@.len() implies #[trigger] hay@.subrange(j, j + needle@.len()) != needle@ by {
            assert(j <= last);
        }
    }
    false
}

/// Whether every keyword occurs in `content`, ignoring case.
pub fn contains_all_keywords(content: &str, keywords: &[&str]) -> (r: bool)
    ensures
        r == forall|k: int| 0 <= k < keywords@.len() ==> occurs_in(lower_of(#[trigger] keywords@[k]@), lower_of(content@)),
{
    let lowered = lowercase(content);
    let hay = chars_of(lowered.as_str());
    let mut k: usize = 0;
    while k < keywords.len()
        invariant
            hay@ == lower_of(content@),
            k <= keywords@.len(),
            forall|j: int| 0 <= j < k ==> occurs_in(lower_of(#[trigger] keywords@[j]@), lower_of(content@)),
        decreases keywords.len() - k,
    {
        let kw: &str = keywords[k];
        let lowered_kw = lowercase(kw);
        let needle = chars_of(lowered_kw.as_str());
        if !contains_chars(&hay, &needle) {
            return false;
        }
        k = k + 1;
    }
    true
}

// ---------------------------------------------------------------------------
// Links
// ---------------------------------------------------------------------------

/// Whether `pattern` compiles as a regular expression.
pub uninterp spec fn regex_compiles(pattern: Seq<char>) -> bool;

/// Texts of the successive leftmost-first, non-overlapping matches of
/// `pattern` in `text`.
pub uninterp spec fn regex_matches(pattern: Seq<char>, text: Seq<char>) -> Seq<Seq<char>>;

/// Relies on `regex::Regex::new`, which compiles `pattern` or returns an
/// error, and on `Regex::find_iter`, which yields the matches in `text`; both
/// depend on their arguments alone.
#[verifier::external_body]
fn find_matches(pattern: &str, text: &str) -> (r: Option<Vec<String>>)
    ensures
        r is Some <==> regex_compiles(pattern@),
        r matches Some(v) ==> v@.map_values(|m: String| m@) == regex_matches(pattern@, text@),
{
    regex::Regex::new(pattern).ok().map(|re| re.find_iter(text).map(|m| m.as_str().to_string()).collect())
}

/// Pattern of an http or https link: the scheme, then everything up to
/// whitespace or a closing parenthesis.
pub const URL_PATTERN: &'static str = "https?://[^\\s\\)]+";

/// The http and https links in `content`, in order.
pub fn extract_urls(content: &str) -> (r: Vec<String>)
    ensures
        regex_compiles(URL_PATTERN@) ==> r@.map_values(|m: String| m@) == regex_matches(URL_PATTERN@, content@),
        !regex_compiles(URL_PATTERN@) ==> r@.len() == 0,
{
    match find_matches(URL_PATTERN, content) {
        Some(v) => v,
        None => Vec::new(),
    }
}

} // verus!
