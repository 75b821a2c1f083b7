//! A streaming scanner for the slide markup.
//!
//! The scanner turns markup text into a sequence of events: opening tags,
//! self-closing tags, closing tags, and trimmed text runs.  Its grammar is
//! the one this library defines for its packages:
//!
//! - a tag is `<name k="v" ...>`, `<name k="v" .../>` or `</name>`; attribute
//!   values sit between double or single quotes;
//! - `<?...>` and `<!...>` segments run to the next `>` and are skipped;
//! - text runs are trimmed of surrounding whitespace and dropped when only
//!   whitespace remains; character entities are left in place and resolved
//!   separately by [`unescape`];
//! - anything else (an unterminated tag, a tag without a name, an attribute
//!   without `=` or quotes) is a well-formedness violation, the scanner's
//!   only fatal condition.
//!
//! The scanner does not match closing tags against the elements they
//! close: `</b>` after `<a>` scans as an ordinary closing-tag event.  That
//! leniency is a deliberate part of this grammar — the consumers key on
//! tag names and never rely on balanced nesting — so unbalanced markup is
//! consumed rather than refused.

use vstd::prelude::*;
use vstd::string::*;

verus! {

/// One attribute of a tag, at the specification level.
pub ghost struct SpecAttr {
    pub key: Seq<char>,
    pub value: Seq<char>,
}

/// One markup event, at the specification level.
pub ghost enum SpecEvent {
    Start { name: Seq<char>, attrs: Seq<SpecAttr> },
    Empty { name: Seq<char>, attrs: Seq<SpecAttr> },
    End { name: Seq<char> },
    Text { text: Seq<char> },
}

/// One attribute of a tag.
pub struct XmlAttr {
    pub key: String,
    pub value: String,
}

impl View for XmlAttr {
    type V = SpecAttr;

    open spec fn view(&self) -> SpecAttr {
        SpecAttr { key: self.key@, value: self.value@ }
    }
}

/// One markup event.
pub enum XmlEvent {
    Start { name: String, attrs: Vec<XmlAttr> },
    Empty { name: String, attrs: Vec<XmlAttr> },
    End { name: String },
    Text { text: String },
}

/// The specification-level image of a sequence of attributes.
pub open spec fn attrs_view(s: Seq<XmlAttr>) -> Seq<SpecAttr> {
    s.map_values(|a: XmlAttr| a@)
}

impl View for XmlEvent {
    type V = SpecEvent;

    open spec fn view(&self) -> SpecEvent {
        match self {
            XmlEvent::Start { name, attrs } => SpecEvent::Start {
                name: name@,
                attrs: attrs_view(attrs@),
            },
            XmlEvent::Empty { name, attrs } => SpecEvent::Empty {
                name: name@,
                attrs: attrs_view(attrs@),
            },
            XmlEvent::End { name } => SpecEvent::End { name: name@ },
            XmlEvent::Text { text } => SpecEvent::Text { text: text@ },
        }
    }
}

/// The specification-level image of a sequence of events.
pub open spec fn events_view(s: Seq<XmlEvent>) -> Seq<SpecEvent> {
    s.map_values(|e: XmlEvent| e@)
}

/// Whitespace as the scanner trims it.
pub open spec fn spec_is_ws(c: char) -> bool {
    c == ' ' || c == '\t' || c == '\n' || c == '\r'
}

/// A character that ends a tag or attribute name.
pub open spec fn spec_is_name_end(c: char) -> bool {
    spec_is_ws(c) || c == '/' || c == '>' || c == '='
}

/// First position at or after `from` holding `c`, or the length if none.
pub open spec fn spec_find_char(s: Seq<char>, from: int, c: char) -> int
    decreases s.len() - from,
{
    if !(0 <= from < s.len()) {
        s.len() as int
    } else if s[from] == c {
        from
    } else {
        spec_find_char(s, from + 1, c)
    }
}

/// First position at or after `from` holding non-whitespace, or the length.
pub open spec fn spec_skip_ws(s: Seq<char>, from: int) -> int
    decreases s.len() - from,
{
    if !(0 <= from < s.len()) {
        s.len() as int
    } else if spec_is_ws(s[from]) {
        spec_skip_ws(s, from + 1)
    } else {
        from
    }
}

/// First position at or after `from` that ends a name, or the length.
pub open spec fn spec_find_name_end(s: Seq<char>, from: int) -> int
    decreases s.len() - from,
{
    if !(0 <= from < s.len()) {
        s.len() as int
    } else if spec_is_name_end(s[from]) {
        from
    } else {
        spec_find_name_end(s, from + 1)
    }
}

/// Largest position at most `end` such that everything from it to `end`
/// is whitespace-free on its right edge: the right trim point.
pub open spec fn spec_rtrim(s: Seq<char>, end: int) -> int
    decreases end,
{
    if end <= 0 || end > s.len() {
        if end > s.len() {
            end
        } else {
            0
        }
    } else if spec_is_ws(s[end - 1]) {
        spec_rtrim(s, end - 1)
    } else {
        end
    }
}

pub proof fn lemma_find_char(s: Seq<char>, from: int, c: char)
    requires
        0 <= from <= s.len(),
    ensures
        from <= spec_find_char(s, from, c) <= s.len(),
        spec_find_char(s, from, c) < s.len() ==> s[spec_find_char(s, from, c)] == c,
        forall|j: int| from <= j < spec_find_char(s, from, c) ==> s[j] != c,
    decreases s.len() - from,
{
    if from < s.len() && s[from] != c {
        lemma_find_char(s, from + 1, c);
    }
}

pub proof fn lemma_skip_ws(s: Seq<char>, from: int)
    requires
        0 <= from <= s.len(),
    ensures
        from <= spec_skip_ws(s, from) <= s.len(),
        spec_skip_ws(s, from) < s.len() ==> !spec_is_ws(s[spec_skip_ws(s, from)]),
        forall|j: int| from <= j < spec_skip_ws(s, from) ==> spec_is_ws(s[j]),
    decreases s.len() - from,
{
    if from < s.len() && spec_is_ws(s[from]) {
        lemma_skip_ws(s, from + 1);
    }
}

pub proof fn lemma_find_name_end(s: Seq<char>, from: int)
    requires
        0 <= from <= s.len(),
    ensures
        from <= spec_find_name_end(s, from) <= s.len(),
        spec_find_name_end(s, from) < s.len() ==> spec_is_name_end(
            s[spec_find_name_end(s, from)],
        ),
        forall|j: int| from <= j < spec_find_name_end(s, from) ==> !spec_is_name_end(s[j]),
    decreases s.len() - from,
{
    if from < s.len() && !spec_is_name_end(s[from]) {
        lemma_find_name_end(s, from + 1);
    }
}

pub proof fn lemma_rtrim(s: Seq<char>, end: int)
    requires
        0 <= end <= s.len(),
    ensures
        0 <= spec_rtrim(s, end) <= end,
        spec_rtrim(s, end) > 0 ==> !spec_is_ws(s[spec_rtrim(s, end) - 1]),
        forall|j: int| spec_rtrim(s, end) <= j < end ==> spec_is_ws(s[j]),
    decreases end,
{
    if end > 0 && spec_is_ws(s[end - 1]) {
        lemma_rtrim(s, end - 1);
    }
}

/// One scanner step: an event with the position after it, the end of the
/// input, or a well-formedness violation.
pub ghost enum SpecStep {
    Ev(SpecEvent, int),
    Eof,
    Fail,
}

/// Scan the attribute list of a tag whose name starts the tag at `pos`.
pub open spec fn spec_scan_attrs(
    s: Seq<char>,
    pos: int,
    name: Seq<char>,
    attrs: Seq<SpecAttr>,
) -> SpecStep
    decreases s.len() - pos,
    via spec_scan_attrs_decreases
{
    let p = spec_skip_ws(s, pos);
    if !(0 <= pos <= s.len()) || p >= s.len() {
        SpecStep::Fail
    } else if s[p] == '>' {
        SpecStep::Ev(SpecEvent::Start { name, attrs }, p + 1)
    } else if s[p] == '/' {
        if p + 1 < s.len() && s[p + 1] == '>' {
            SpecStep::Ev(SpecEvent::Empty { name, attrs }, p + 2)
        } else {
            SpecStep::Fail
        }
    } else {
        let ke = spec_find_name_end(s, p);
        let q = spec_skip_ws(s, ke);
        if ke == p || q >= s.len() || s[q] != '=' {
            SpecStep::Fail
        } else {
            let v = spec_skip_ws(s, q + 1);
            if v >= s.len() || (s[v] != '"' && s[v] != '\'') {
                SpecStep::Fail
            } else {
                let vend = spec_find_char(s, v + 1, s[v]);
                if vend >= s.len() {
                    SpecStep::Fail
                } else {
                    spec_scan_attrs(
                        s,
                        vend + 1,
                        name,
                        attrs.push(
                            SpecAttr { key: s.subrange(p, ke), value: s.subrange(v + 1, vend) },
                        ),
                    )
                }
            }
        }
    }
}

#[via_fn]
proof fn spec_scan_attrs_decreases(s: Seq<char>, pos: int, name: Seq<char>, attrs: Seq<SpecAttr>) {
    if 0 <= pos <= s.len() {
        let p = spec_skip_ws(s, pos);
        lemma_skip_ws(s, pos);
        if p < s.len() && s[p] != '>' && s[p] != '/' {
            let ke = spec_find_name_end(s, p);
            lemma_find_name_end(s, p);
            let q = spec_skip_ws(s, ke);
            lemma_skip_ws(s, ke);
            if ke != p && q < s.len() && s[q] == '=' {
                let v = spec_skip_ws(s, q + 1);
                lemma_skip_ws(s, q + 1);
                if v < s.len() && (s[v] == '"' || s[v] == '\'') {
                    lemma_find_char(s, v + 1, s[v]);
                }
            }
        }
    }
}

/// Scan the next event at or after `pos`, skipping declarations, comments
/// and whitespace-only text.
pub open spec fn spec_next_event(s: Seq<char>, pos: int) -> SpecStep
    decreases s.len() - pos,
    via spec_next_event_decreases
{
    if !(0 <= pos <= s.len()) {
        SpecStep::Fail
    } else if pos == s.len() {
        SpecStep::Eof
    } else if s[pos] != '<' {
        let end = spec_find_char(s, pos, '<');
        let run = s.subrange(pos, end);
        let a = spec_skip_ws(run, 0);
        let b = spec_rtrim(run, run.len() as int);
        if a >= b {
            spec_next_event(s, end)
        } else {
            SpecStep::Ev(SpecEvent::Text { text: run.subrange(a, b) }, end)
        }
    } else if pos + 1 >= s.len() {
        SpecStep::Fail
    } else if s[pos + 1] == '?' || s[pos + 1] == '!' {
        let end = spec_find_char(s, pos + 2, '>');
        if end >= s.len() {
            SpecStep::Fail
        } else {
            spec_next_event(s, end + 1)
        }
    } else if s[pos + 1] == '/' {
        let end = spec_find_char(s, pos + 2, '>');
        if end >= s.len() {
            SpecStep::Fail
        } else {
            SpecStep::Ev(SpecEvent::End { name: s.subrange(pos + 2, end) }, end + 1)
        }
    } else {
        let ne = spec_find_name_end(s, pos + 1);
        if ne == pos + 1 {
            SpecStep::Fail
        } else {
            spec_scan_attrs(s, ne, s.subrange(pos + 1, ne), Seq::empty())
        }
    }
}

#[via_fn]
proof fn spec_next_event_decreases(s: Seq<char>, pos: int) {
    if 0 <= pos < s.len() {
        if s[pos] != '<' {
            lemma_find_char(s, pos, '<');
        } else if pos + 1 < s.len() && (s[pos + 1] == '?' || s[pos + 1] == '!') {
            lemma_find_char(s, pos + 2, '>');
        }
    }
}

/// Every produced event lies strictly ahead of the position it was read at.
pub proof fn lemma_scan_attrs_advances(
    s: Seq<char>,
    pos: int,
    name: Seq<char>,
    attrs: Seq<SpecAttr>,
)
    requires
        0 <= pos <= s.len(),
    ensures
        spec_scan_attrs(s, pos, name, attrs) matches SpecStep::Ev(e, p2) ==> pos < p2 <= s.len(),
    decreases s.len() - pos,
{
    let p = spec_skip_ws(s, pos);
    lemma_skip_ws(s, pos);
    if p < s.len() && s[p] != '>' && s[p] != '/' {
        let ke = spec_find_name_end(s, p);
        lemma_find_name_end(s, p);
        let q = spec_skip_ws(s, ke);
        lemma_skip_ws(s, ke);
        if ke != p && q < s.len() && s[q] == '=' {
            let v = spec_skip_ws(s, q + 1);
            lemma_skip_ws(s, q + 1);
            if v < s.len() && (s[v] == '"' || s[v] == '\'') {
                let vend = spec_find_char(s, v + 1, s[v]);
                lemma_find_char(s, v + 1, s[v]);
                if vend < s.len() {
                    lemma_scan_attrs_advances(
                        s,
                        vend + 1,
                        name,
                        attrs.push(
                            SpecAttr { key: s.subrange(p, ke), value: s.subrange(v + 1, vend) },
                        ),
                    );
                }
            }
        }
    }
}

/// Every produced event lies strictly ahead of the position it was read at.
pub proof fn lemma_next_event_advances(s: Seq<char>, pos: int)
    requires
        0 <= pos <= s.len(),
    ensures
        spec_next_event(s, pos) matches SpecStep::Ev(e, p2) ==> pos < p2 <= s.len(),
    decreases s.len() - pos,
{
    if pos < s.len() {
        if s[pos] != '<' {
            lemma_find_char(s, pos, '<');
            let end = spec_find_char(s, pos, '<');
            let run = s.subrange(pos, end);
            lemma_skip_ws(run, 0);
            lemma_rtrim(run, run.len() as int);
            if spec_skip_ws(run, 0) >= spec_rtrim(run, run.len() as int) {
                lemma_next_event_advances(s, end);
            }
        } else if pos + 1 < s.len() && (s[pos + 1] == '?' || s[pos + 1] == '!') {
            lemma_find_char(s, pos + 2, '>');
            let end = spec_find_char(s, pos + 2, '>');
            if end < s.len() {
                lemma_next_event_advances(s, end + 1);
            }
        } else if pos + 1 < s.len() && s[pos + 1] == '/' {
            lemma_find_char(s, pos + 2, '>');
        } else if pos + 1 < s.len() {
            let ne = spec_find_name_end(s, pos + 1);
            lemma_find_name_end(s, pos + 1);
            if ne != pos + 1 {
                lemma_scan_attrs_advances(s, ne, s.subrange(pos + 1, ne), Seq::empty());
            }
        }
    }
}

/// The events of the whole input from `pos` on, or `None` on a
/// well-formedness violation.
pub open spec fn spec_scan_from(s: Seq<char>, pos: int) -> Option<Seq<SpecEvent>>
    decreases s.len() - pos + 1,
    via spec_scan_from_decreases
{
    if !(0 <= pos <= s.len()) {
        None
    } else {
        match spec_next_event(s, pos) {
            SpecStep::Eof => Some(Seq::empty()),
            SpecStep::Fail => None,
            SpecStep::Ev(e, p2) => match spec_scan_from(s, p2) {
                None => None,
                Some(rest) => Some(seq![e] + rest),
            },
        }
    }
}

#[via_fn]
proof fn spec_scan_from_decreases(s: Seq<char>, pos: int) {
    if 0 <= pos <= s.len() {
        lemma_next_event_advances(s, pos);
    }
}

/// The events of the whole input, or `None` on a well-formedness violation.
pub open spec fn spec_scan(s: Seq<char>) -> Option<Seq<SpecEvent>> {
    spec_scan_from(s, 0)
}

fn find_char(s: &str, n: usize, from: usize, c: char) -> (r: usize)
    requires
        n == s@.len(),
        from <= n,
    ensures
        r == spec_find_char(s@, from as int, c),
        from <= r <= n,
{
    let mut i = from;
    while i < n
        invariant
            from <= i <= n,
            n == s@.len(),
            spec_find_char(s@, from as int, c) == spec_find_char(s@, i as int, c),
        decreases n - i,
    {
        if s.get_char(i) == c {
            return i;
        }
        i = i + 1;
    }
    i
}

fn skip_ws(s: &str, n: usize, from: usize) -> (r: usize)
    requires
        n == s@.len(),
        from <= n,
    ensures
        r == spec_skip_ws(s@, from as int),
        from <= r <= n,
{
    let mut i = from;
    while i < n
        invariant
            from <= i <= n,
            n == s@.len(),
            spec_skip_ws(s@, from as int) == spec_skip_ws(s@, i as int),
        decreases n - i,
    {
        let c = s.get_char(i);
        if !(c == ' ' || c == '\t' || c == '\n' || c == '\r') {
            return i;
        }
        i = i + 1;
    }
    i
}

fn find_name_end(s: &str, n: usize, from: usize) -> (r: usize)
    requires
        n == s@.len(),
        from <= n,
    ensures
        r == spec_find_name_end(s@, from as int),
        from <= r <= n,
{
    let mut i = from;
    while i < n
        invariant
            from <= i <= n,
            n == s@.len(),
            spec_find_name_end(s@, from as int) == spec_find_name_end(s@, i as int),
        decreases n - i,
    {
        let c = s.get_char(i);
        if c == ' ' || c == '\t' || c == '\n' || c == '\r' || c == '/' || c == '>' || c == '=' {
            return i;
        }
        i = i + 1;
    }
    i
}

fn rtrim_end(s: &str, n: usize, end: usize) -> (r: usize)
    requires
        n == s@.len(),
        end <= n,
    ensures
        r == spec_rtrim(s@, end as int),
        r <= end,
{
    let mut i = end;
    while i > 0
        invariant
            0 <= i <= end <= n,
            n == s@.len(),
            spec_rtrim(s@, end as int) == spec_rtrim(s@, i as int),
        decreases i,
    {
        let c = s.get_char(i - 1);
        if !(c == ' ' || c == '\t' || c == '\n' || c == '\r') {
            return i;
        }
        i = i - 1;
    }
    i
}

enum NextEvent {
    Ev(XmlEvent, usize),
    Eof,
    Fail,
}

impl NextEvent {
    spec fn matches_step(&self, step: SpecStep) -> bool {
        match self {
            NextEvent::Ev(e, p) => step matches SpecStep::Ev(se, sp) && se == e@ && sp == *p as int,
            NextEvent::Eof => step is Eof,
            NextEvent::Fail => step is Fail,
        }
    }
}

fn scan_attrs(s: &str, n: usize, pos: usize, name: String) -> (r: NextEvent)
    requires
        n == s@.len(),
        pos <= n,
    ensures
        r.matches_step(spec_scan_attrs(s@, pos as int, name@, Seq::empty())),
{
    let mut attrs: Vec<XmlAttr> = Vec::new();
    let mut cur = pos;
    proof {
        assert(attrs_view(attrs@) =~= Seq::<SpecAttr>::empty());
    }
    loop
        invariant
            cur <= n,
            n == s@.len(),
            spec_scan_attrs(s@, pos as int, name@, Seq::empty()) == spec_scan_attrs(
                s@,
                cur as int,
                name@,
                attrs_view(attrs@),
            ),
        decreases n - cur,
    {
        proof {
            lemma_skip_ws(s@, cur as int);
        }
        let p = skip_ws(s, n, cur);
        if p >= n {
            proof {
                assert(spec_scan_attrs(s@, cur as int, name@, attrs_view(attrs@)) is Fail);
            }
            return NextEvent::Fail;
        }
        let c = s.get_char(p);
        if c == '>' {
            proof {
                assert(spec_scan_attrs(s@, cur as int, name@, attrs_view(attrs@))
                    == SpecStep::Ev(SpecEvent::Start { name: name@, attrs: attrs_view(attrs@) }, p as int + 1));
            }
            return NextEvent::Ev(XmlEvent::Start { name, attrs }, p + 1);
        } else if c == '/' {
            if p + 1 < n && s.get_char(p + 1) == '>' {
                return NextEvent::Ev(XmlEvent::Empty { name, attrs }, p + 2);
            } else {
                return NextEvent::Fail;
            }
        } else {
            proof {
                lemma_find_name_end(s@, p as int);
            }
            let ke = find_name_end(s, n, p);
            proof {
                lemma_skip_ws(s@, ke as int);
            }
            let q = skip_ws(s, n, ke);
            if ke == p || q >= n || s.get_char(q) != '=' {
                return NextEvent::Fail;
            }
            proof {
                lemma_skip_ws(s@, q as int + 1);
            }
            let v = skip_ws(s, n, q + 1);
            if v >= n {
                return NextEvent::Fail;
            }
            let quote = s.get_char(v);
            if quote != '"' && quote != '\'' {
                return NextEvent::Fail;
            }
            proof {
                lemma_find_char(s@, v as int + 1, s@[v as int]);
            }
            let vend = find_char(s, n, v + 1, quote);
            if vend >= n {
                return NextEvent::Fail;
            }
            let key = String::from_str(s.substring_char(p, ke));
            let value = String::from_str(s.substring_char(v + 1, vend));
            proof {
                assert(attrs_view(attrs@.push(XmlAttr { key, value })) =~= attrs_view(attrs@).push(
                    SpecAttr { key: s@.subrange(p as int, ke as int), value: s@.subrange(v as int + 1, vend as int) },
                ));
            }
            attrs.push(XmlAttr { key, value });
            cur = vend + 1;
        }
    }
}

fn next_event(s: &str, n: usize, pos: usize) -> (r: NextEvent)
    requires
        n == s@.len(),
        pos <= n,
    ensures
        r.matches_step(spec_next_event(s@, pos as int)),
{
    let mut cur = pos;
    loop
        invariant
            cur <= n,
            n == s@.len(),
            spec_next_event(s@, pos as int) == spec_next_event(s@, cur as int),
        decreases n - cur,
    {
        if cur == n {
            return NextEvent::Eof;
        }
        let c = s.get_char(cur);
        if c != '<' {
            proof {
                lemma_find_char(s@, cur as int, '<');
            }
            let end = find_char(s, n, cur, '<');
            let ghost run = s@.subrange(cur as int, end as int);
            let sub = s.substring_char(cur, end);
            let m = end - cur;
            proof {
                lemma_skip_ws(run, 0);
                lemma_rtrim(run, run.len() as int);
            }
            let a = skip_ws(sub, m, 0);
            let b = rtrim_end(sub, m, m);
            if a >= b {
                cur = end;
            } else {
                let text = String::from_str(sub.substring_char(a, b));
                return NextEvent::Ev(XmlEvent::Text { text }, end);
            }
        } else if cur + 1 >= n {
            return NextEvent::Fail;
        } else {
            let c1 = s.get_char(cur + 1);
            if c1 == '?' || c1 == '!' {
                proof {
                    lemma_find_char(s@, cur as int + 2, '>');
                }
                let end = find_char(s, n, cur + 2, '>');
                if end >= n {
                    return NextEvent::Fail;
                }
                cur = end + 1;
            } else if c1 == '/' {
                proof {
                    lemma_find_char(s@, cur as int + 2, '>');
                }
                let end = find_char(s, n, cur + 2, '>');
                if end >= n {
                    return NextEvent::Fail;
                }
                let name = String::from_str(s.substring_char(cur + 2, end));
                return NextEvent::Ev(XmlEvent::End { name }, end + 1);
            } else {
                proof {
                    lemma_find_name_end(s@, cur as int + 1);
                }
                let ne = find_name_end(s, n, cur + 1);
                if ne == cur + 1 {
                    return NextEvent::Fail;
                }
                let name = String::from_str(s.substring_char(cur + 1, ne));
                return scan_attrs(s, n, ne, name);
            }
        }
    }
}

/// Scan the whole input into its event sequence; `None` is a
/// well-formedness violation.
pub fn scan_events(s: &str) -> (r: Option<Vec<XmlEvent>>)
    ensures
        match spec_scan(s@) {
            Some(evs) => r matches Some(v) && events_view(v@) == evs,
            None => r is None,
        },
{
    let n = s.unicode_len();
    let mut out: Vec<XmlEvent> = Vec::new();
    let mut pos: usize = 0;
    loop
        invariant
            pos <= n,
            n == s@.len(),
            spec_scan(s@) == match spec_scan_from(s@, pos as int) {
                None => None::<Seq<SpecEvent>>,
                Some(rest) => Some(events_view(out@) + rest),
            },
        decreases n - pos,
    {
        proof {
            lemma_next_event_advances(s@, pos as int);
        }
        match next_event(s, n, pos) {
            NextEvent::Eof => {
                proof {
                    assert(events_view(out@) + Seq::<SpecEvent>::empty() =~= events_view(out@));
                }
                return Some(out);
            },
            NextEvent::Fail => {
                return None;
            },
            NextEvent::Ev(e, p2) => {
                proof {
                    let rest0 = spec_scan_from(s@, pos as int);
                    let rest2 = spec_scan_from(s@, p2 as int);
                    if rest2 is Some {
                        assert(events_view(out@.push(e)) =~= events_view(out@).push(e@));
                        assert(events_view(out@) + (seq![e@] + rest2->0) =~= events_view(
                            out@.push(e),
                        ) + rest2->0);
                    }
                }
                out.push(e);
                pos = p2;
            },
        }
    }
}

/// The value of the last attribute with the given key: when a key
/// repeats, the last assignment wins.
pub open spec fn spec_attr_last(attrs: Seq<SpecAttr>, key: Seq<char>) -> Option<Seq<char>>
    decreases attrs.len(),
{
    if attrs.len() == 0 {
        None
    } else if attrs.last().key == key {
        Some(attrs.last().value)
    } else {
        spec_attr_last(attrs.drop_last(), key)
    }
}

/// Look up the last attribute with the given key.
pub fn attr_last(attrs: &Vec<XmlAttr>, key: &str) -> (r: Option<String>)
    ensures
        match spec_attr_last(attrs_view(attrs@), key@) {
            Some(v) => r matches Some(s) && s@ == v,
            None => r is None,
        },
{
    let n = attrs.len();
    proof {
        assert(attrs_view(attrs@).take(n as int) =~= attrs_view(attrs@));
    }
    let mut i = n;
    while i > 0
        invariant
            i <= n,
            n == attrs@.len(),
            spec_attr_last(attrs_view(attrs@), key@) == spec_attr_last(
                attrs_view(attrs@).take(i as int),
                key@,
            ),
        decreases i,
    {
        proof {
            assert(attrs_view(attrs@).take(i as int).drop_last() =~= attrs_view(attrs@).take(
                i as int - 1,
            ));
            assert(attrs_view(attrs@).take(i as int).last() == attrs@[i as int - 1]@);
        }
        if crate::text::str_eq(attrs[i - 1].key.as_str(), key) {
            return Some(attrs[i - 1].value.clone());
        }
        i = i - 1;
    }
    proof {
        assert(attrs_view(attrs@).take(0) =~= Seq::<SpecAttr>::empty());
    }
    None
}

/// Resolution of the five predefined character entities; an ampersand that
/// does not begin one of them stays in place.
pub open spec fn spec_unescape_from(s: Seq<char>, i: int) -> Seq<char>
    decreases s.len() - i,
    via spec_unescape_from_decreases
{
    if !(0 <= i < s.len()) {
        Seq::empty()
    } else if s[i] == '&' {
        let j = spec_find_char(s, i + 1, ';');
        if j < s.len() && spec_entity_char(s.subrange(i + 1, j)) is Some {
            seq![spec_entity_char(s.subrange(i + 1, j))->0] + spec_unescape_from(s, j + 1)
        } else {
            seq!['&'] + spec_unescape_from(s, i + 1)
        }
    } else {
        seq![s[i]] + spec_unescape_from(s, i + 1)
    }
}

#[via_fn]
proof fn spec_unescape_from_decreases(s: Seq<char>, i: int) {
    if 0 <= i < s.len() && s[i] == '&' {
        lemma_find_char(s, i + 1, ';');
    }
}

/// The character of a predefined entity name, if it is one.
pub open spec fn spec_entity_char(name: Seq<char>) -> Option<char> {
    if name == "amp"@ {
        Some('&')
    } else if name == "lt"@ {
        Some('<')
    } else if name == "gt"@ {
        Some('>')
    } else if name == "quot"@ {
        Some('"')
    } else if name == "apos"@ {
        Some('\'')
    } else {
        None
    }
}

/// The text with its predefined character entities resolved.
pub open spec fn spec_unescape(s: Seq<char>) -> Seq<char> {
    spec_unescape_from(s, 0)
}

fn entity_char(name: &str) -> (r: Option<&'static str>)
    ensures
        match spec_entity_char(name@) {
            Some(c) => r matches Some(t) && t@ =~= seq![c],
            None => r is None,
        },
{
    proof {
        reveal_strlit("amp");
        reveal_strlit("lt");
        reveal_strlit("gt");
        reveal_strlit("quot");
        reveal_strlit("apos");
        reveal_strlit("&");
        reveal_strlit("<");
        reveal_strlit(">");
        reveal_strlit("\"");
        reveal_strlit("'");
    }
    if crate::text::str_eq(name, "amp") {
        Some("&")
    } else if crate::text::str_eq(name, "lt") {
        Some("<")
    } else if crate::text::str_eq(name, "gt") {
        Some(">")
    } else if crate::text::str_eq(name, "quot") {
        Some("\"")
    } else if crate::text::str_eq(name, "apos") {
        Some("'")
    } else {
        None
    }
}

/// Resolve the predefined character entities of `s`.
pub fn unescape(s: &str) -> (r: String)
    ensures
        r@ == spec_unescape(s@),
{
    let n = s.unicode_len();
    let mut out = String::new();
    let mut i: usize = 0;
    while i < n
        invariant
            i <= n,
            n == s@.len(),
            out@ + spec_unescape_from(s@, i as int) == spec_unescape(s@),
        decreases n - i,
    {
        let c = s.get_char(i);
        if c == '&' {
            proof {
                lemma_find_char(s@, i as int + 1, ';');
            }
            let j = find_char(s, n, i + 1, ';');
            if j < n {
                let name = s.substring_char(i + 1, j);
                match entity_char(name) {
                    Some(t) => {
                        out.append(t);
                        i = j + 1;
                    },
                    None => {
                        out.append("&");
                        proof {
                            reveal_strlit("&");
                        }
                        i = i + 1;
                    },
                }
            } else {
                out.append("&");
                proof {
                    reveal_strlit("&");
                }
                i = i + 1;
            }
        } else {
            let one = s.substring_char(i, i + 1);
            proof {
                assert(one@ =~= seq![s@[i as int]]);
            }
            out.append(one);
            i = i + 1;
        }
    }
    proof {
        assert(out@ + Seq::<char>::empty() =~= out@);
    }
    out
}

} // verus!
