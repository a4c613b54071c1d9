use vstd::prelude::*;
use vstd::string::StrSliceExecFns;
use vstd::string::StringExecFns;

use crate::task::Importance;
use crate::task::Task;
use crate::task::TaskView;
use crate::task::label_of;
use crate::task::views_of;

verus! {

// ---------------------------------------------------------------------------
// The on-disk document, as a mathematical value.
//
// A task list is persisted as one JSON document: an array of objects, each
// with the fields `description` (string), `completed` (boolean) and
// `importance` (one of the labels `HIGH`, `MID`, `LOW`).  The document is
// written pretty-printed with two-space indentation.  `json_of` gives the
// exact text that is written; `parse_doc` gives the value that reading a
// text yields, `None` where the text is not such a document.
// ---------------------------------------------------------------------------

pub open spec fn is_ws(c: char) -> bool {
    c == ' ' || c == '\n' || c == '\t' || c == '\r'
}

/// How many whitespace characters stand at position `i`.
pub open spec fn ws_len(s: Seq<char>, i: int) -> nat
    decreases s.len() - i,
{
    if 0 <= i && i < s.len() && is_ws(s[i]) {
        1 + ws_len(s, i + 1)
    } else {
        0
    }
}

/// The first position at or after `i` that holds no whitespace.
pub open spec fn skip_ws(s: Seq<char>, i: int) -> int {
    i + ws_len(s, i)
}

// ------------------------------- serialization ----------------------------

/// The hexadecimal digit for a value below sixteen, lower case.
pub open spec fn hex_digit(v: int) -> char {
    if v == 0 {
        '0'
    } else if v == 1 {
        '1'
    } else if v == 2 {
        '2'
    } else if v == 3 {
        '3'
    } else if v == 4 {
        '4'
    } else if v == 5 {
        '5'
    } else if v == 6 {
        '6'
    } else if v == 7 {
        '7'
    } else if v == 8 {
        '8'
    } else if v == 9 {
        '9'
    } else if v == 10 {
        'a'
    } else if v == 11 {
        'b'
    } else if v == 12 {
        'c'
    } else if v == 13 {
        'd'
    } else if v == 14 {
        'e'
    } else {
        'f'
    }
}

/// The JSON escape of one character of a string value.
pub open spec fn esc_char(c: char) -> Seq<char> {
    if c == '"' {
        seq!['\\', '"']
    } else if c == '\\' {
        seq!['\\', '\\']
    } else if c == '\u{8}' {
        seq!['\\', 'b']
    } else if c == '\t' {
        seq!['\\', 't']
    } else if c == '\n' {
        seq!['\\', 'n']
    } else if c == '\u{c}' {
        seq!['\\', 'f']
    } else if c == '\r' {
        seq!['\\', 'r']
    } else if (c as u32) < 32 {
        seq!['\\', 'u', '0', '0', hex_digit(c as u32 as int / 16), hex_digit(c as u32 as int % 16)]
    } else {
        seq![c]
    }
}

/// The JSON escape of a whole string value.
pub open spec fn esc(s: Seq<char>) -> Seq<char>
    decreases s.len(),
{
    if s.len() == 0 {
        Seq::empty()
    } else {
        esc_char(s[0]) + esc(s.drop_first())
    }
}

/// A string value in its JSON form: quoted and escaped.
pub open spec fn jstr(s: Seq<char>) -> Seq<char> {
    seq!['"'] + esc(s) + seq!['"']
}

/// A fixed word in quotes; used for keys and labels, which need no escaping.
pub open spec fn quoted(w: Seq<char>) -> Seq<char> {
    seq!['"'] + w + seq!['"']
}

pub open spec fn kw_description() -> Seq<char> {
    seq!['d', 'e', 's', 'c', 'r', 'i', 'p', 't', 'i', 'o', 'n']
}

pub open spec fn kw_completed() -> Seq<char> {
    seq!['c', 'o', 'm', 'p', 'l', 'e', 't', 'e', 'd']
}

pub open spec fn kw_importance() -> Seq<char> {
    seq!['i', 'm', 'p', 'o', 'r', 't', 'a', 'n', 'c', 'e']
}

pub open spec fn kw_true() -> Seq<char> {
    seq!['t', 'r', 'u', 'e']
}

pub open spec fn kw_false() -> Seq<char> {
    seq!['f', 'a', 'l', 's', 'e']
}

pub open spec fn jbool(b: bool) -> Seq<char> {
    if b {
        kw_true()
    } else {
        kw_false()
    }
}

pub open spec fn ind2() -> Seq<char> {
    seq![' ', ' ']
}

pub open spec fn ind4() -> Seq<char> {
    seq![' ', ' ', ' ', ' ']
}

/// A task object from its opening brace on: what stands after the leading
/// indentation.
pub open spec fn task_core(t: TaskView) -> Seq<char> {
    seq!['{', '\n']
        + ind4() + quoted(kw_description()) + seq![':', ' '] + jstr(t.description) + seq![',', '\n']
        + ind4() + quoted(kw_completed()) + seq![':', ' '] + jbool(t.completed) + seq![',', '\n']
        + ind4() + quoted(kw_importance()) + seq![':', ' '] + quoted(label_of(t.importance)) + seq!['\n']
        + ind2() + seq!['}']
}

/// One task as a pretty-printed JSON object, indented one level.
pub open spec fn task_obj(t: TaskView) -> Seq<char> {
    ind2() + task_core(t)
}

/// The tasks of a non-empty list, joined by a comma and a line break.
pub open spec fn items_of(ts: Seq<TaskView>) -> Seq<char>
    decreases ts.len(),
{
    if ts.len() <= 1 {
        task_obj(ts[0])
    } else {
        items_of(ts.drop_last()) + seq![',', '\n'] + task_obj(ts.last())
    }
}

/// The whole document for a task list: the exact text that is persisted.
pub open spec fn json_of(ts: Seq<TaskView>) -> Seq<char> {
    if ts.len() == 0 {
        seq!['[', ']']
    } else {
        seq!['[', '\n'] + items_of(ts) + seq!['\n', ']']
    }
}

// --------------------------------- parsing --------------------------------

/// The word `w` stands in `s` at position `i`.
pub open spec fn has_at(s: Seq<char>, i: int, w: Seq<char>) -> bool {
    0 <= i && i + w.len() <= s.len() && s.subrange(i, i + w.len()) == w
}

/// The value of a hexadecimal digit, either case; sixteen if none.
pub open spec fn hex_val(c: char) -> int {
    let v = c as u32;
    if 48 <= v && v <= 57 {
        v - 48
    } else if 97 <= v && v <= 102 {
        v - 87
    } else if 65 <= v && v <= 70 {
        v - 55
    } else {
        16
    }
}

pub open spec fn with_char(c: char, r: Option<(Seq<char>, int)>) -> Option<(Seq<char>, int)> {
    match r {
        Some(p) => Some((seq![c] + p.0, p.1)),
        None => None,
    }
}

/// Parse the body of a JSON string: `i` stands just after the opening quote.
/// Yields the decoded value and the position just after the closing quote.
pub open spec fn parse_str_body(s: Seq<char>, i: int) -> Option<(Seq<char>, int)>
    decreases s.len() - i,
{
    if !(0 <= i && i < s.len()) {
        None
    } else if s[i] == '"' {
        Some((Seq::empty(), i + 1))
    } else if s[i] == '\\' {
        if i + 1 < s.len() {
            let e = s[i + 1];
            if e == '"' || e == '\\' || e == '/' {
                with_char(e, parse_str_body(s, i + 2))
            } else if e == 'b' {
                with_char('\u{8}', parse_str_body(s, i + 2))
            } else if e == 't' {
                with_char('\t', parse_str_body(s, i + 2))
            } else if e == 'n' {
                with_char('\n', parse_str_body(s, i + 2))
            } else if e == 'f' {
                with_char('\u{c}', parse_str_body(s, i + 2))
            } else if e == 'r' {
                with_char('\r', parse_str_body(s, i + 2))
            } else if e == 'u' {
                if i + 5 < s.len() && s[i + 2] == '0' && s[i + 3] == '0'
                    && hex_val(s[i + 4]) < 16 && hex_val(s[i + 5]) < 16 {
                    let v = hex_val(s[i + 4]) * 16 + hex_val(s[i + 5]);
                    with_char(((v as u32) as char), parse_str_body(s, i + 6))
                } else {
                    None
                }
            } else {
                None
            }
        } else {
            None
        }
    } else if (s[i] as u32) < 32 {
        None
    } else {
        with_char(s[i], parse_str_body(s, i + 1))
    }
}

/// Parse a JSON string, opening quote at `i`.
pub open spec fn parse_string(s: Seq<char>, i: int) -> Option<(Seq<char>, int)> {
    if 0 <= i && i < s.len() && s[i] == '"' {
        parse_str_body(s, i + 1)
    } else {
        None
    }
}

/// Parse a JSON boolean at `i`.
pub open spec fn parse_bool(s: Seq<char>, i: int) -> Option<(bool, int)> {
    if has_at(s, i, kw_true()) {
        Some((true, i + kw_true().len()))
    } else if has_at(s, i, kw_false()) {
        Some((false, i + kw_false().len()))
    } else {
        None
    }
}

/// The importance whose label a decoded string value is, if any.
pub open spec fn importance_of_label(w: Seq<char>) -> Option<Importance> {
    if w == label_of(Importance::High) {
        Some(Importance::High)
    } else if w == label_of(Importance::Mid) {
        Some(Importance::Mid)
    } else if w == label_of(Importance::Low) {
        Some(Importance::Low)
    } else {
        None
    }
}

/// One field of a task object, with its decoded value.
pub ghost enum Member {
    Desc(Seq<char>),
    Comp(bool),
    Imp(Importance),
}

/// Parse one `"key": value` member of a task object, key at `i`.
pub open spec fn parse_member(s: Seq<char>, i: int) -> Option<(Member, int)> {
    match parse_string(s, i) {
        None => None,
        Some(kp) => {
            let colon = skip_ws(s, kp.1);
            if colon < s.len() && s[colon] == ':' {
                let v = skip_ws(s, colon + 1);
                if kp.0 == kw_description() {
                    match parse_string(s, v) {
                        Some(d) => Some((Member::Desc(d.0), d.1)),
                        None => None,
                    }
                } else if kp.0 == kw_completed() {
                    match parse_bool(s, v) {
                        Some(b) => Some((Member::Comp(b.0), b.1)),
                        None => None,
                    }
                } else if kp.0 == kw_importance() {
                    match parse_string(s, v) {
                        Some(w) => match importance_of_label(w.0) {
                            Some(imp) => Some((Member::Imp(imp), w.1)),
                            None => None,
                        },
                        None => None,
                    }
                } else {
                    None
                }
            } else {
                None
            }
        },
    }
}

/// A task from its three members, one of each kind, in any order.
pub open spec fn mk_task(m1: Member, m2: Member, m3: Member) -> Option<TaskView> {
    match (m1, m2, m3) {
        (Member::Desc(d), Member::Comp(c), Member::Imp(p)) =>
            Some(TaskView { description: d, completed: c, importance: p }),
        (Member::Desc(d), Member::Imp(p), Member::Comp(c)) =>
            Some(TaskView { description: d, completed: c, importance: p }),
        (Member::Comp(c), Member::Desc(d), Member::Imp(p)) =>
            Some(TaskView { description: d, completed: c, importance: p }),
        (Member::Comp(c), Member::Imp(p), Member::Desc(d)) =>
            Some(TaskView { description: d, completed: c, importance: p }),
        (Member::Imp(p), Member::Desc(d), Member::Comp(c)) =>
            Some(TaskView { description: d, completed: c, importance: p }),
        (Member::Imp(p), Member::Comp(c), Member::Desc(d)) =>
            Some(TaskView { description: d, completed: c, importance: p }),
        _ => None,
    }
}

/// Parse one task object, opening brace at `i`; the three fields may come
/// in any order, each exactly once.
pub open spec fn parse_task(s: Seq<char>, i: int) -> Option<(TaskView, int)> {
    if !(0 <= i && i < s.len() && s[i] == '{') {
        None
    } else {
        match parse_member(s, skip_ws(s, i + 1)) {
            None => None,
            Some(p1) => {
                let c1 = skip_ws(s, p1.1);
                if c1 < s.len() && s[c1] == ',' {
                    match parse_member(s, skip_ws(s, c1 + 1)) {
                        None => None,
                        Some(p2) => {
                            let c2 = skip_ws(s, p2.1);
                            if c2 < s.len() && s[c2] == ',' {
                                match parse_member(s, skip_ws(s, c2 + 1)) {
                                    None => None,
                                    Some(p3) => {
                                        let c3 = skip_ws(s, p3.1);
                                        if c3 < s.len() && s[c3] == '}' {
                                            match mk_task(p1.0, p2.0, p3.0) {
                                                Some(t) => Some((t, c3 + 1)),
                                                None => None,
                                            }
                                        } else {
                                            None
                                        }
                                    },
                                }
                            } else {
                                None
                            }
                        },
                    }
                } else {
                    None
                }
            },
        }
    }
}

/// Parse the remaining tasks of a non-empty array, the next object starting
/// at `i`, up to and including the closing bracket.  `n` bounds how many
/// tasks may still follow; a document of length `m` holds fewer than `m`.
pub open spec fn parse_items(s: Seq<char>, i: int, n: nat) -> Option<(Seq<TaskView>, int)>
    decreases n,
{
    if n == 0 {
        None
    } else {
        match parse_task(s, i) {
            None => None,
            Some(p) => {
                let k = skip_ws(s, p.1);
                if k < s.len() && s[k] == ']' {
                    Some((seq![p.0], k + 1))
                } else if k < s.len() && s[k] == ',' {
                    match parse_items(s, skip_ws(s, k + 1), (n - 1) as nat) {
                        None => None,
                        Some(rest) => Some((seq![p.0] + rest.0, rest.1)),
                    }
                } else {
                    None
                }
            },
        }
    }
}

/// Parse the array of tasks, opening bracket at `i`.
pub open spec fn parse_array(s: Seq<char>, i: int) -> Option<(Seq<TaskView>, int)> {
    if !(0 <= i && i < s.len() && s[i] == '[') {
        None
    } else {
        let j = skip_ws(s, i + 1);
        if j < s.len() && s[j] == ']' {
            Some((Seq::empty(), j + 1))
        } else {
            parse_items(s, j, s.len() as nat)
        }
    }
}

/// Parse a whole document: one array of task objects and nothing else
/// but whitespace around it.
pub open spec fn parse_doc(s: Seq<char>) -> Option<Seq<TaskView>> {
    match parse_array(s, skip_ws(s, 0)) {
        None => None,
        Some(p) => {
            if skip_ws(s, p.1) == s.len() {
                Some(p.0)
            } else {
                None
            }
        },
    }
}

// ------------------------------ the reader --------------------------------

/// The text could not be read as a task-list document.
#[derive(Clone, Copy, Debug, PartialEq, Eq, Structural)]
pub struct ParseError;

/// One character of `w` standing in `s` at offset `k` from `i`.
pub(crate) proof fn lemma_has_at_char(s: Seq<char>, i: int, w: Seq<char>, k: int)
    requires
        has_at(s, i, w),
        0 <= k < w.len(),
    ensures
        s[i + k] == w[k],
{
    assert(s.subrange(i, i + w.len())[k] == w[k]);
}

/// Relies on String::push: appends exactly the given character.
#[verifier::external_body]
pub(crate) fn push_char(s: &mut String, c: char)
    ensures
        final(s)@ == old(s)@.push(c),
{
    s.push(c);
}

pub(crate) fn p_skip_ws(s: &str, i: usize, n: usize) -> (r: usize)
    requires
        n == s@.len(),
        i <= n,
    ensures
        i <= r <= n,
        r as int == skip_ws(s@, i as int),
{
    let mut cur = i;
    loop
        invariant
            n == s@.len(),
            i <= cur <= n,
            skip_ws(s@, i as int) == skip_ws(s@, cur as int),
        decreases n - cur,
    {
        if cur >= n {
            proof {
                assert(ws_len(s@, cur as int) == 0);
            }
            return cur;
        }
        let c = s.get_char(cur);
        if c == ' ' || c == '\n' || c == '\t' || c == '\r' {
            proof {
                assert(ws_len(s@, cur as int) == 1 + ws_len(s@, cur as int + 1));
            }
            cur = cur + 1;
        } else {
            proof {
                assert(ws_len(s@, cur as int) == 0);
            }
            return cur;
        }
    }
}

fn hexv(c: char) -> (r: u8)
    ensures
        r as int == hex_val(c),
{
    let v = c as u32;
    if 48 <= v && v <= 57 {
        (v - 48) as u8
    } else if 97 <= v && v <= 102 {
        (v - 87) as u8
    } else if 65 <= v && v <= 70 {
        (v - 55) as u8
    } else {
        16
    }
}

/// `r` continued with a decoded prefix already in hand.
spec fn prefixed(p: Seq<char>, r: Option<(Seq<char>, int)>) -> Option<(Seq<char>, int)> {
    match r {
        Some(q) => Some((p + q.0, q.1)),
        None => None,
    }
}

fn p_str_body(s: &str, i: usize, n: usize) -> (r: Option<(String, usize)>)
    requires
        n == s@.len(),
        i <= n,
    ensures
        (match r {
            Some(p) => parse_str_body(s@, i as int) == Some((p.0@, p.1 as int)) && i < p.1 <= n,
            None => parse_str_body(s@, i as int) is None,
        }),
{
    let mut acc = String::new();
    let mut cur = i;
    proof {
        match parse_str_body(s@, i as int) {
            Some(p) => {
                assert(Seq::<char>::empty() + p.0 =~= p.0);
            },
            None => {},
        }
    }
    loop
        invariant
            n == s@.len(),
            i <= cur <= n,
            parse_str_body(s@, i as int) == prefixed(acc@, parse_str_body(s@, cur as int)),
        decreases n - cur,
    {
        if cur >= n {
            return None;
        }
        let c = s.get_char(cur);
        if c == '"' {
            proof {
                assert(acc@ + Seq::<char>::empty() =~= acc@);
            }
            return Some((acc, cur + 1));
        } else if c == '\\' {
            if n - cur < 2 {
                return None;
            }
            let e = s.get_char(cur + 1);
            let dec: char;
            let step: usize;
            if e == '"' || e == '\\' || e == '/' {
                dec = e;
                step = 2;
            } else if e == 'b' {
                dec = '\u{8}';
                step = 2;
            } else if e == 't' {
                dec = '\t';
                step = 2;
            } else if e == 'n' {
                dec = '\n';
                step = 2;
            } else if e == 'f' {
                dec = '\u{c}';
                step = 2;
            } else if e == 'r' {
                dec = '\r';
                step = 2;
            } else if e == 'u' {
                if n - cur < 6 {
                    return None;
                }
                let c2 = s.get_char(cur + 2);
                let c3 = s.get_char(cur + 3);
                let v1 = hexv(s.get_char(cur + 4));
                let v2 = hexv(s.get_char(cur + 5));
                if c2 == '0' && c3 == '0' && v1 < 16 && v2 < 16 {
                    let v: u8 = v1 * 16 + v2;
                    dec = v as char;
                    step = 6;
                } else {
                    return None;
                }
            } else {
                return None;
            }
            proof {
                let g = parse_str_body(s@, cur as int + step as int);
                assert(parse_str_body(s@, cur as int) == with_char(dec, g));
                match g {
                    Some(p) => {
                        assert(acc@.push(dec) + p.0 =~= acc@ + (seq![dec] + p.0));
                    },
                    None => {},
                }
            }
            push_char(&mut acc, dec);
            cur = cur + step;
        } else if (c as u32) < 32 {
            return None;
        } else {
            proof {
                let g = parse_str_body(s@, cur as int + 1);
                assert(parse_str_body(s@, cur as int) == with_char(c, g));
                match g {
                    Some(p) => {
                        assert(acc@.push(c) + p.0 =~= acc@ + (seq![c] + p.0));
                    },
                    None => {},
                }
            }
            push_char(&mut acc, c);
            cur = cur + 1;
        }
    }
}

fn p_string(s: &str, i: usize, n: usize) -> (r: Option<(String, usize)>)
    requires
        n == s@.len(),
        i <= n,
    ensures
        (match r {
            Some(p) => parse_string(s@, i as int) == Some((p.0@, p.1 as int)) && i < p.1 <= n,
            None => parse_string(s@, i as int) is None,
        }),
{
    if i < n && s.get_char(i) == '"' {
        p_str_body(s, i + 1, n)
    } else {
        None
    }
}

/// The word `w` stands in `s` at position `i`.
fn word_at(s: &str, i: usize, n: usize, w: &str) -> (r: bool)
    requires
        n == s@.len(),
        i <= n,
    ensures
        r == has_at(s@, i as int, w@),
{
    let m = w.unicode_len();
    if n - i < m {
        return false;
    }
    let mut k: usize = 0;
    loop
        invariant
            n == s@.len(),
            m == w@.len(),
            i <= n,
            n - i >= m,
            0 <= k <= m,
            forall|j: int| 0 <= j < k ==> s@[i + j] == w@[j],
        decreases m - k,
    {
        if k >= m {
            proof {
                assert(s@.subrange(i as int, i as int + m as int) =~= w@);
            }
            return true;
        }
        if s.get_char(i + k) != w.get_char(k) {
            proof {
                if has_at(s@, i as int, w@) {
                    lemma_has_at_char(s@, i as int, w@, k as int);
                }
            }
            return false;
        }
        k = k + 1;
    }
}

fn p_bool(s: &str, i: usize, n: usize) -> (r: Option<(bool, usize)>)
    requires
        n == s@.len(),
        i <= n,
    ensures
        (match r {
            Some(p) => parse_bool(s@, i as int) == Some((p.0, p.1 as int)) && i < p.1 <= n,
            None => parse_bool(s@, i as int) is None,
        }),
{
    proof {
        reveal_strlit("true");
        reveal_strlit("false");
        assert("true"@ =~= kw_true());
        assert("false"@ =~= kw_false());
    }
    if word_at(s, i, n, "true") {
        Some((true, i + 4))
    } else if word_at(s, i, n, "false") {
        Some((false, i + 5))
    } else {
        None
    }
}

/// One field of a task object, with its decoded value.
enum MemberE {
    Desc(String),
    Comp(bool),
    Imp(Importance),
}

impl View for MemberE {
    type V = Member;

    closed spec fn view(&self) -> Member {
        match self {
            MemberE::Desc(d) => Member::Desc(d@),
            MemberE::Comp(c) => Member::Comp(*c),
            MemberE::Imp(p) => Member::Imp(*p),
        }
    }
}

pub(crate) fn imp_of_label(w: &String) -> (r: Option<Importance>)
    ensures
        r == importance_of_label(w@),
{
    proof {
        reveal_strlit("HIGH");
        reveal_strlit("MID");
        reveal_strlit("LOW");
        assert("HIGH"@ =~= label_of(Importance::High));
        assert("MID"@ =~= label_of(Importance::Mid));
        assert("LOW"@ =~= label_of(Importance::Low));
    }
    if *w == "HIGH".to_owned() {
        Some(Importance::High)
    } else if *w == "MID".to_owned() {
        Some(Importance::Mid)
    } else if *w == "LOW".to_owned() {
        Some(Importance::Low)
    } else {
        None
    }
}

fn p_member(s: &str, i: usize, n: usize) -> (r: Option<(MemberE, usize)>)
    requires
        n == s@.len(),
        i <= n,
    ensures
        (match r {
            Some(p) => parse_member(s@, i as int) == Some((p.0@, p.1 as int)) && i < p.1 <= n,
            None => parse_member(s@, i as int) is None,
        }),
{
    proof {
        reveal_strlit("description");
        reveal_strlit("completed");
        reveal_strlit("importance");
        assert("description"@ =~= kw_description());
        assert("completed"@ =~= kw_completed());
        assert("importance"@ =~= kw_importance());
    }
    match p_string(s, i, n) {
        None => None,
        Some((key, j)) => {
            let colon = p_skip_ws(s, j, n);
            if colon < n && s.get_char(colon) == ':' {
                let v = p_skip_ws(s, colon + 1, n);
                if key == "description".to_owned() {
                    match p_string(s, v, n) {
                        Some((d, dj)) => Some((MemberE::Desc(d), dj)),
                        None => None,
                    }
                } else if key == "completed".to_owned() {
                    match p_bool(s, v, n) {
                        Some((b, bj)) => Some((MemberE::Comp(b), bj)),
                        None => None,
                    }
                } else if key == "importance".to_owned() {
                    match p_string(s, v, n) {
                        Some((w, wj)) => match imp_of_label(&w) {
                            Some(imp) => Some((MemberE::Imp(imp), wj)),
                            None => None,
                        },
                        None => None,
                    }
                } else {
                    None
                }
            } else {
                None
            }
        },
    }
}

fn mk_task_exec(m1: MemberE, m2: MemberE, m3: MemberE) -> (r: Option<Task>)
    ensures
        (match r {
            Some(t) => mk_task(m1@, m2@, m3@) == Some(t@),
            None => mk_task(m1@, m2@, m3@) is None,
        }),
{
    match (m1, m2, m3) {
        (MemberE::Desc(d), MemberE::Comp(c), MemberE::Imp(p)) =>
            Some(Task { description: d, completed: c, importance: p }),
        (MemberE::Desc(d), MemberE::Imp(p), MemberE::Comp(c)) =>
            Some(Task { description: d, completed: c, importance: p }),
        (MemberE::Comp(c), MemberE::Desc(d), MemberE::Imp(p)) =>
            Some(Task { description: d, completed: c, importance: p }),
        (MemberE::Comp(c), MemberE::Imp(p), MemberE::Desc(d)) =>
            Some(Task { description: d, completed: c, importance: p }),
        (MemberE::Imp(p), MemberE::Desc(d), MemberE::Comp(c)) =>
            Some(Task { description: d, completed: c, importance: p }),
        (MemberE::Imp(p), MemberE::Comp(c), MemberE::Desc(d)) =>
            Some(Task { description: d, completed: c, importance: p }),
        _ => None,
    }
}

fn p_task(s: &str, i: usize, n: usize) -> (r: Option<(Task, usize)>)
    requires
        n == s@.len(),
        i <= n,
    ensures
        (match r {
            Some(p) => parse_task(s@, i as int) == Some((p.0@, p.1 as int)) && i < p.1 <= n,
            None => parse_task(s@, i as int) is None,
        }),
{
    if !(i < n && s.get_char(i) == '{') {
        return None;
    }
    let j = p_skip_ws(s, i + 1, n);
    match p_member(s, j, n) {
        None => None,
        Some((m1, j1)) => {
            let c1 = p_skip_ws(s, j1, n);
            if c1 < n && s.get_char(c1) == ',' {
                match p_member(s, p_skip_ws(s, c1 + 1, n), n) {
                    None => None,
                    Some((m2, j2)) => {
                        let c2 = p_skip_ws(s, j2, n);
                        if c2 < n && s.get_char(c2) == ',' {
                            match p_member(s, p_skip_ws(s, c2 + 1, n), n) {
                                None => None,
                                Some((m3, j3)) => {
                                    let c3 = p_skip_ws(s, j3, n);
                                    if c3 < n && s.get_char(c3) == '}' {
                                        match mk_task_exec(m1, m2, m3) {
                                            Some(t) => Some((t, c3 + 1)),
                                            None => None,
                                        }
                                    } else {
                                        None
                                    }
                                },
                            }
                        } else {
                            None
                        }
                    },
                }
            } else {
                None
            }
        },
    }
}

fn p_items(s: &str, i: usize, n: usize, fuel: usize) -> (r: Option<(Vec<Task>, usize)>)
    requires
        n == s@.len(),
        i <= n,
    ensures
        (match r {
            Some(p) => parse_items(s@, i as int, fuel as nat) == Some((views_of(p.0@), p.1 as int))
                && p.1 <= n,
            None => parse_items(s@, i as int, fuel as nat) is None,
        }),
    decreases fuel,
{
    if fuel == 0 {
        return None;
    }
    match p_task(s, i, n) {
        None => None,
        Some((t, j)) => {
            let k = p_skip_ws(s, j, n);
            if k < n && s.get_char(k) == ']' {
                let mut v: Vec<Task> = Vec::new();
                v.push(t);
                proof {
                    assert(views_of(v@) =~= seq![t@]);
                }
                Some((v, k + 1))
            } else if k < n && s.get_char(k) == ',' {
                let i2 = p_skip_ws(s, k + 1, n);
                match p_items(s, i2, n, fuel - 1) {
                    None => None,
                    Some((mut rest, m)) => {
                        let ghost old_rest = rest@;
                        rest.insert(0, t);
                        proof {
                            assert(views_of(rest@) =~= seq![t@] + views_of(old_rest));
                        }
                        Some((rest, m))
                    },
                }
            } else {
                None
            }
        },
    }
}

fn p_array(s: &str, i: usize, n: usize) -> (r: Option<(Vec<Task>, usize)>)
    requires
        n == s@.len(),
        i <= n,
    ensures
        (match r {
            Some(p) => parse_array(s@, i as int) == Some((views_of(p.0@), p.1 as int)) && p.1 <= n,
            None => parse_array(s@, i as int) is None,
        }),
{
    if !(i < n && s.get_char(i) == '[') {
        return None;
    }
    let j = p_skip_ws(s, i + 1, n);
    if j < n && s.get_char(j) == ']' {
        let v: Vec<Task> = Vec::new();
        proof {
            assert(views_of(v@) =~= Seq::<TaskView>::empty());
        }
        Some((v, j + 1))
    } else {
        p_items(s, j, n, n)
    }
}

/// Read a whole task-list document.  Succeeds exactly on the texts that
/// `parse_doc` accepts, and yields exactly the tasks it denotes.
pub fn parse_tasks(s: &str) -> (r: Result<Vec<Task>, ParseError>)
    ensures
        (match r {
            Ok(v) => parse_doc(s@) == Some(views_of(v@)),
            Err(_) => parse_doc(s@) is None,
        }),
{
    let n = s.unicode_len();
    let i = p_skip_ws(s, 0, n);
    match p_array(s, i, n) {
        None => Err(ParseError),
        Some((v, j)) => {
            let e = p_skip_ws(s, j, n);
            if e == n {
                Ok(v)
            } else {
                Err(ParseError)
            }
        },
    }
}

// ------------------------------ the writer --------------------------------

/// Escaping a string one character longer appends that character's escape.
proof fn lemma_esc_snoc(t: Seq<char>, c: char)
    ensures
        esc(t.push(c)) == esc(t) + esc_char(c),
    decreases t.len(),
{
    if t.len() == 0 {
        assert(t.push(c)[0] == c);
        assert(t.push(c).drop_first() =~= Seq::<char>::empty());
        assert(esc_char(c) + esc(Seq::<char>::empty()) =~= esc_char(c));
        assert(esc(t) + esc_char(c) =~= esc_char(c));
    } else {
        lemma_esc_snoc(t.drop_first(), c);
        assert(t.push(c).drop_first() =~= t.drop_first().push(c));
        assert(t.push(c)[0] == t[0]);
        assert(esc_char(t[0]) + (esc(t.drop_first()) + esc_char(c)) =~= (esc_char(t[0]) + esc(
            t.drop_first(),
        )) + esc_char(c));
    }
}

fn hexd(d: u32) -> (r: char)
    requires
        d < 16,
    ensures
        r == hex_digit(d as int),
{
    if d == 0 {
        '0'
    } else if d == 1 {
        '1'
    } else if d == 2 {
        '2'
    } else if d == 3 {
        '3'
    } else if d == 4 {
        '4'
    } else if d == 5 {
        '5'
    } else if d == 6 {
        '6'
    } else if d == 7 {
        '7'
    } else if d == 8 {
        '8'
    } else if d == 9 {
        '9'
    } else if d == 10 {
        'a'
    } else if d == 11 {
        'b'
    } else if d == 12 {
        'c'
    } else if d == 13 {
        'd'
    } else if d == 14 {
        'e'
    } else {
        'f'
    }
}

/// Append a string value in its JSON form: quoted and escaped.
fn append_json_string(out: &mut String, s: &str)
    ensures
        final(out)@ == old(out)@ + jstr(s@),
{
    let n = s.unicode_len();
    push_char(out, '"');
    proof {
        assert(s@.subrange(0, 0) =~= Seq::<char>::empty());
        assert(old(out)@.push('"') =~= old(out)@ + seq!['"'] + esc(s@.subrange(0, 0)));
    }
    let mut k: usize = 0;
    while k < n
        invariant
            n == s@.len(),
            k <= n,
            out@ == old(out)@ + seq!['"'] + esc(s@.subrange(0, k as int)),
        decreases n - k,
    {
        let c = s.get_char(k);
        proof {
            lemma_esc_snoc(s@.subrange(0, k as int), c);
            assert(s@.subrange(0, k as int + 1) =~= s@.subrange(0, k as int).push(c));
        }
        let ghost pre = out@;
        if c == '"' {
            push_char(out, '\\');
            push_char(out, '"');
            proof {
                assert(pre.push('\\').push('"') =~= pre + esc_char(c));
            }
        } else if c == '\\' {
            push_char(out, '\\');
            push_char(out, '\\');
            proof {
                assert(pre.push('\\').push('\\') =~= pre + esc_char(c));
            }
        } else if c == '\u{8}' {
            push_char(out, '\\');
            push_char(out, 'b');
            proof {
                assert(pre.push('\\').push('b') =~= pre + esc_char(c));
            }
        } else if c == '\t' {
            push_char(out, '\\');
            push_char(out, 't');
            proof {
                assert(pre.push('\\').push('t') =~= pre + esc_char(c));
            }
        } else if c == '\n' {
            push_char(out, '\\');
            push_char(out, 'n');
            proof {
                assert(pre.push('\\').push('n') =~= pre + esc_char(c));
            }
        } else if c == '\u{c}' {
            push_char(out, '\\');
            push_char(out, 'f');
            proof {
                assert(pre.push('\\').push('f') =~= pre + esc_char(c));
            }
        } else if c == '\r' {
            push_char(out, '\\');
            push_char(out, 'r');
            proof {
                assert(pre.push('\\').push('r') =~= pre + esc_char(c));
            }
        } else if (c as u32) < 32 {
            let v = c as u32;
            push_char(out, '\\');
            push_char(out, 'u');
            push_char(out, '0');
            push_char(out, '0');
            let h1 = hexd(v / 16);
            let h2 = hexd(v % 16);
            push_char(out, h1);
            push_char(out, h2);
            proof {
                assert(pre.push('\\').push('u').push('0').push('0').push(h1).push(h2) =~= pre
                    + esc_char(c));
            }
        } else {
            push_char(out, c);
            proof {
                assert(pre.push(c) =~= pre + esc_char(c));
            }
        }
        k = k + 1;
    }
    push_char(out, '"');
    proof {
        assert(s@.subrange(0, n as int) =~= s@);
        assert(out@ =~= old(out)@ + jstr(s@));
    }
}

/// Append one task as a pretty-printed JSON object.
fn append_task(out: &mut String, t: &Task)
    ensures
        final(out)@ == old(out)@ + task_obj(t@),
{
    proof {
        reveal_strlit("  {\n    \"description\": ");
        reveal_strlit(",\n    \"completed\": ");
        reveal_strlit("true");
        reveal_strlit("false");
        reveal_strlit(",\n    \"importance\": \"");
        reveal_strlit("\"\n  }");
        assert("  {\n    \"description\": "@ =~= ind2() + seq!['{', '\n'] + ind4() + quoted(
            kw_description(),
        ) + seq![':', ' ']);
        assert(",\n    \"completed\": "@ =~= seq![',', '\n'] + ind4() + quoted(kw_completed())
            + seq![':', ' ']);
        assert("true"@ =~= kw_true());
        assert("false"@ =~= kw_false());
        assert(",\n    \"importance\": \""@ =~= seq![',', '\n'] + ind4() + quoted(kw_importance())
            + seq![':', ' '] + seq!['"']);
        assert("\"\n  }"@ =~= seq!['"'] + seq!['\n'] + ind2() + seq!['}']);
    }
    out.append("  {\n    \"description\": ");
    append_json_string(out, t.description.as_str());
    out.append(",\n    \"completed\": ");
    if t.completed {
        out.append("true");
    } else {
        out.append("false");
    }
    out.append(",\n    \"importance\": \"");
    out.append(t.importance.label());
    out.append("\"\n  }");
    proof {
        assert(out@ =~= old(out)@ + task_obj(t@));
    }
}

/// Write a task list as its persisted document: the exact text `json_of`
/// gives for the list's value.
pub fn serialize_tasks(v: &Vec<Task>) -> (r: String)
    ensures
        r@ == json_of(views_of(v@)),
{
    if v.len() == 0 {
        proof {
            reveal_strlit("[]");
            assert("[]"@ =~= seq!['[', ']']);
        }
        return "[]".to_owned();
    }
    proof {
        reveal_strlit("[\n");
        reveal_strlit(",\n");
        reveal_strlit("\n]");
        assert("[\n"@ =~= seq!['[', '\n']);
        assert(",\n"@ =~= seq![',', '\n']);
        assert("\n]"@ =~= seq!['\n', ']']);
    }
    let mut out = "[\n".to_owned();
    let mut k: usize = 0;
    while k < v.len()
        invariant
            k <= v@.len(),
            v@.len() > 0,
            k == 0 ==> out@ == seq!['[', '\n'],
            k >= 1 ==> out@ == seq!['[', '\n'] + items_of(views_of(v@).subrange(0, k as int)),
        decreases v@.len() - k,
    {
        proof {
            reveal_strlit(",\n");
            assert(",\n"@ =~= seq![',', '\n']);
        }
        if k > 0 {
            out.append(",\n");
        }
        append_task(&mut out, &v[k]);
        proof {
            let ts = views_of(v@);
            let now = ts.subrange(0, k as int + 1);
            assert(now.last() == v@[k as int]@);
            if k == 0 {
                assert(now.len() == 1);
                assert(items_of(now) == task_obj(now[0]));
                assert(out@ =~= seq!['[', '\n'] + items_of(now));
            } else {
                let pre = ts.subrange(0, k as int);
                assert(now.drop_last() =~= pre);
                assert(items_of(now) == items_of(pre) + seq![',', '\n'] + task_obj(now.last()));
                assert(out@ =~= seq!['[', '\n'] + items_of(now));
            }
        }
        k = k + 1;
    }
    out.append("\n]");
    proof {
        assert(views_of(v@).subrange(0, v@.len() as int) =~= views_of(v@));
        assert(out@ =~= json_of(views_of(v@)));
    }
    out
}

} // verus!
