use vstd::prelude::*;

use crate::codec::Member;
use crate::codec::esc;
use crate::codec::esc_char;
use crate::codec::has_at;
use crate::codec::hex_digit;
use crate::codec::hex_val;
use crate::codec::importance_of_label;
use crate::codec::ind2;
use crate::codec::ind4;
use crate::codec::is_ws;
use crate::codec::items_of;
use crate::codec::jbool;
use crate::codec::json_of;
use crate::codec::jstr;
use crate::codec::kw_completed;
use crate::codec::kw_description;
use crate::codec::kw_false;
use crate::codec::kw_importance;
use crate::codec::kw_true;
use crate::codec::lemma_has_at_char;
use crate::codec::mk_task;
use crate::codec::parse_array;
use crate::codec::parse_bool;
use crate::codec::parse_doc;
use crate::codec::parse_items;
use crate::codec::parse_member;
use crate::codec::parse_str_body;
use crate::codec::parse_string;
use crate::codec::parse_task;
use crate::codec::quoted;
use crate::codec::skip_ws;
use crate::codec::task_core;
use crate::codec::task_obj;
use crate::codec::with_char;
use crate::codec::ws_len;
use crate::task::Importance;
use crate::task::TaskView;
use crate::task::label_of;

verus! {

// ---------------------------------------------------------------------------
// Reading back what was written.  The lemmas here walk the exact text that
// `json_of` lays down, production by production, and end in the round-trip
// law: parsing the persisted text of any task list yields that list.
// ---------------------------------------------------------------------------

/// A word standing at `i` splits at any seam.
proof fn lemma_has_at_split(s: Seq<char>, i: int, w1: Seq<char>, w2: Seq<char>)
    requires
        has_at(s, i, w1 + w2),
    ensures
        has_at(s, i, w1),
        has_at(s, i + w1.len(), w2),
{
    let w = w1 + w2;
    assert forall|k: int| 0 <= k < w1.len() implies s[i + k] == w1[k] by {
        lemma_has_at_char(s, i, w, k);
    }
    assert(s.subrange(i, i + w1.len()) =~= w1);
    assert forall|k: int| 0 <= k < w2.len() implies s[i + w1.len() + k] == w2[k] by {
        lemma_has_at_char(s, i, w, w1.len() + k);
    }
    assert(s.subrange(i + w1.len(), i + w1.len() + w2.len()) =~= w2);
}

/// Skipping whitespace from `i` runs to exactly `i + k` when the next `k`
/// characters are whitespace and what follows them is not.
proof fn lemma_skip_run(s: Seq<char>, i: int, k: int)
    requires
        0 <= i,
        0 <= k,
        i + k <= s.len(),
        forall|j: int| i <= j < i + k ==> is_ws(s[j]),
        i + k == s.len() || !is_ws(s[i + k]),
    ensures
        skip_ws(s, i) == i + k,
    decreases k,
{
    if k == 0 {
        assert(ws_len(s, i) == 0);
    } else {
        assert(is_ws(s[i]));
        lemma_skip_run(s, i + 1, k - 1);
        assert(ws_len(s, i) == 1 + ws_len(s, i + 1));
    }
}

/// A character whose JSON escape is itself.
spec fn plain_char(c: char) -> bool {
    c != '"' && c != '\\' && c as u32 >= 32
}

/// A word of plain characters escapes to itself.
proof fn lemma_esc_plain(w: Seq<char>)
    requires
        forall|k: int| 0 <= k < w.len() ==> plain_char(#[trigger] w[k]),
    ensures
        esc(w) == w,
    decreases w.len(),
{
    if w.len() == 0 {
        assert(esc(w) =~= w);
    } else {
        assert forall|k: int| 0 <= k < w.drop_first().len() implies plain_char(
            #[trigger] w.drop_first()[k],
        ) by {
            assert(w.drop_first()[k] == w[k + 1]);
        }
        lemma_esc_plain(w.drop_first());
        assert(plain_char(w[0]));
        assert(esc_char(w[0]) == seq![w[0]]);
        assert(esc(w) =~= w);
    }
}

/// A hexadecimal digit reads back as its value.
proof fn lemma_hex_digit(v: int)
    requires
        0 <= v < 16,
    ensures
        hex_val(hex_digit(v)) == v,
{
}

/// The escaped form of a string value, followed by the closing quote,
/// parses back to exactly that value.
proof fn lemma_parse_str_body(s: Seq<char>, i: int, d: Seq<char>)
    requires
        has_at(s, i, esc(d) + seq!['"']),
    ensures
        parse_str_body(s, i) == Some((d, i + esc(d).len() + 1)),
    decreases d.len(),
{
    if d.len() == 0 {
        assert(esc(d) + seq!['"'] =~= seq!['"']);
        lemma_has_at_char(s, i, seq!['"'], 0);
        assert(s[i] == '"');
        assert(parse_str_body(s, i) == Some((Seq::<char>::empty(), i + 1)));
        assert(d =~= Seq::<char>::empty());
    } else {
        let c = d[0];
        let d2 = d.drop_first();
        assert(esc(d) == esc_char(c) + esc(d2));
        assert((esc_char(c) + esc(d2)) + seq!['"'] =~= esc_char(c) + (esc(d2) + seq!['"']));
        lemma_has_at_split(s, i, esc_char(c), esc(d2) + seq!['"']);
        let m = esc_char(c).len();
        lemma_parse_str_body(s, i + m, d2);
        let tail = parse_str_body(s, i + m);
        assert(seq![c] + d2 =~= d);
        if c == '"' || c == '\\' {
            lemma_has_at_char(s, i, esc_char(c), 0);
            lemma_has_at_char(s, i, esc_char(c), 1);
            assert(s[i] == '\\' && s[i + 1] == c);
            assert(parse_str_body(s, i) == with_char(c, tail));
        } else if c == '\u{8}' || c == '\t' || c == '\n' || c == '\u{c}' || c == '\r' {
            lemma_has_at_char(s, i, esc_char(c), 0);
            lemma_has_at_char(s, i, esc_char(c), 1);
            assert(s[i] == '\\');
            assert(parse_str_body(s, i) == with_char(c, tail));
        } else if (c as u32) < 32 {
            let v = c as u32 as int;
            lemma_has_at_char(s, i, esc_char(c), 0);
            lemma_has_at_char(s, i, esc_char(c), 1);
            lemma_has_at_char(s, i, esc_char(c), 2);
            lemma_has_at_char(s, i, esc_char(c), 3);
            lemma_has_at_char(s, i, esc_char(c), 4);
            lemma_has_at_char(s, i, esc_char(c), 5);
            assert(s[i] == '\\' && s[i + 1] == 'u' && s[i + 2] == '0' && s[i + 3] == '0');
            assert(s[i + 4] == hex_digit(v / 16) && s[i + 5] == hex_digit(v % 16));
            lemma_hex_digit(v / 16);
            lemma_hex_digit(v % 16);
            assert(hex_val(s[i + 4]) * 16 + hex_val(s[i + 5]) == v);
            vstd::utf8::char_u32_cast(c, c as u32);
            assert(((v as u32) as char) == c);
            assert(parse_str_body(s, i) == with_char(c, tail));
        } else {
            lemma_has_at_char(s, i, esc_char(c), 0);
            assert(s[i] == c);
            assert(parse_str_body(s, i) == with_char(c, tail));
        }
    }
}

/// A quoted plain word parses as a string to exactly that word.
proof fn lemma_parse_quoted(s: Seq<char>, i: int, w: Seq<char>)
    requires
        has_at(s, i, quoted(w)),
        forall|k: int| 0 <= k < w.len() ==> plain_char(#[trigger] w[k]),
    ensures
        parse_string(s, i) == Some((w, i + w.len() + 2)),
{
    lemma_esc_plain(w);
    assert(quoted(w) =~= seq!['"'] + (w + seq!['"']));
    lemma_has_at_split(s, i, seq!['"'], w + seq!['"']);
    lemma_has_at_char(s, i, seq!['"'], 0);
    assert(s[i] == '"');
    assert(esc(w) + seq!['"'] == w + seq!['"']);
    lemma_parse_str_body(s, i + 1, w);
}

/// A JSON string value parses back to the value it was written from.
proof fn lemma_parse_jstr(s: Seq<char>, i: int, d: Seq<char>)
    requires
        has_at(s, i, jstr(d)),
    ensures
        parse_string(s, i) == Some((d, i + jstr(d).len())),
{
    assert(jstr(d) =~= seq!['"'] + (esc(d) + seq!['"']));
    lemma_has_at_split(s, i, seq!['"'], esc(d) + seq!['"']);
    lemma_has_at_char(s, i, seq!['"'], 0);
    assert(s[i] == '"');
    lemma_parse_str_body(s, i + 1, d);
}

/// A written boolean parses back to itself.
proof fn lemma_parse_bool(s: Seq<char>, i: int, b: bool)
    requires
        has_at(s, i, jbool(b)),
    ensures
        parse_bool(s, i) == Some((b, i + jbool(b).len())),
{
    if b {
    } else {
        if has_at(s, i, kw_true()) {
            lemma_has_at_char(s, i, kw_true(), 0);
            lemma_has_at_char(s, i, kw_false(), 0);
        }
        assert(!has_at(s, i, kw_true()));
    }
}

/// The keys are plain words.
proof fn lemma_keys_plain()
    ensures
        forall|k: int| 0 <= k < kw_description().len() ==> plain_char(#[trigger] kw_description()[k]),
        forall|k: int| 0 <= k < kw_completed().len() ==> plain_char(#[trigger] kw_completed()[k]),
        forall|k: int| 0 <= k < kw_importance().len() ==> plain_char(#[trigger] kw_importance()[k]),
        forall|imp: Importance, k: int| 0 <= k < label_of(imp).len() ==> plain_char(
            #[trigger] label_of(imp)[k],
        ),
{
    assert forall|imp: Importance, k: int| 0 <= k < label_of(imp).len() implies plain_char(
        #[trigger] label_of(imp)[k],
    ) by {
        match imp {
            Importance::High => {},
            Importance::Mid => {},
            Importance::Low => {},
        }
    }
}

/// A written `"key": value` member parses back to the member it encodes:
/// the key picks the kind, the value carries over.  One lemma per key.
proof fn lemma_parse_member_desc(s: Seq<char>, i: int, d: Seq<char>)
    requires
        has_at(s, i, quoted(kw_description()) + seq![':', ' '] + jstr(d)),
    ensures
        parse_member(s, i) == Some(
            (Member::Desc(d), i + quoted(kw_description()).len() + 2 + jstr(d).len()),
        ),
{
    lemma_keys_plain();
    let kq = quoted(kw_description());
    let m = kq.len();
    assert(m == 13);
    assert(kq + seq![':', ' '] + jstr(d) =~= kq + (seq![':', ' '] + jstr(d)));
    lemma_has_at_split(s, i, kq, seq![':', ' '] + jstr(d));
    lemma_has_at_split(s, i + m, seq![':', ' '], jstr(d));
    lemma_has_at_char(s, i + m, seq![':', ' '], 0);
    lemma_has_at_char(s, i + m, seq![':', ' '], 1);
    assert(s[i + m] == ':' && s[i + m + 1] == ' ');
    lemma_parse_quoted(s, i, kw_description());
    lemma_skip_run(s, i + m, 0);
    lemma_has_at_char(s, i + m + 2, jstr(d), 0);
    assert(s[i + m + 2] == '"');
    lemma_skip_run(s, i + m + 1, 1);
    lemma_parse_jstr(s, i + m + 2, d);
}

proof fn lemma_parse_member_comp(s: Seq<char>, i: int, b: bool)
    requires
        has_at(s, i, quoted(kw_completed()) + seq![':', ' '] + jbool(b)),
    ensures
        parse_member(s, i) == Some(
            (Member::Comp(b), i + quoted(kw_completed()).len() + 2 + jbool(b).len()),
        ),
{
    lemma_keys_plain();
    let kq = quoted(kw_completed());
    let m = kq.len();
    assert(m == 11);
    assert(kq + seq![':', ' '] + jbool(b) =~= kq + (seq![':', ' '] + jbool(b)));
    lemma_has_at_split(s, i, kq, seq![':', ' '] + jbool(b));
    lemma_has_at_split(s, i + m, seq![':', ' '], jbool(b));
    lemma_has_at_char(s, i + m, seq![':', ' '], 0);
    lemma_has_at_char(s, i + m, seq![':', ' '], 1);
    assert(s[i + m] == ':' && s[i + m + 1] == ' ');
    lemma_parse_quoted(s, i, kw_completed());
    lemma_skip_run(s, i + m, 0);
    lemma_has_at_char(s, i + m + 2, jbool(b), 0);
    assert(!is_ws(s[i + m + 2]));
    lemma_skip_run(s, i + m + 1, 1);
    lemma_parse_bool(s, i + m + 2, b);
    assert(kw_completed() != kw_description());
}

proof fn lemma_parse_member_imp(s: Seq<char>, i: int, imp: Importance)
    requires
        has_at(s, i, quoted(kw_importance()) + seq![':', ' '] + quoted(label_of(imp))),
    ensures
        parse_member(s, i) == Some(
            (
                Member::Imp(imp),
                i + quoted(kw_importance()).len() + 2 + quoted(label_of(imp)).len(),
            ),
        ),
{
    lemma_keys_plain();
    let kq = quoted(kw_importance());
    let m = kq.len();
    assert(m == 12);
    assert(kq + seq![':', ' '] + quoted(label_of(imp)) =~= kq + (seq![':', ' '] + quoted(
        label_of(imp),
    )));
    lemma_has_at_split(s, i, kq, seq![':', ' '] + quoted(label_of(imp)));
    lemma_has_at_split(s, i + m, seq![':', ' '], quoted(label_of(imp)));
    lemma_has_at_char(s, i + m, seq![':', ' '], 0);
    lemma_has_at_char(s, i + m, seq![':', ' '], 1);
    assert(s[i + m] == ':' && s[i + m + 1] == ' ');
    lemma_parse_quoted(s, i, kw_importance());
    lemma_skip_run(s, i + m, 0);
    lemma_has_at_char(s, i + m + 2, quoted(label_of(imp)), 0);
    assert(s[i + m + 2] == '"');
    lemma_skip_run(s, i + m + 1, 1);
    lemma_parse_quoted(s, i + m + 2, label_of(imp));
    assert(kw_importance() != kw_description());
    assert(kw_importance() != kw_completed());
    assert(importance_of_label(label_of(imp)) == Some(imp)) by {
        match imp {
            Importance::High => {},
            Importance::Mid => {
                assert(label_of(Importance::Mid)[0] == 'M');
            },
            Importance::Low => {
                assert(label_of(Importance::Low).len() != label_of(Importance::High).len());
                assert(label_of(Importance::Low)[0] == 'L');
            },
        }
    }
}

/// A written task object, from its opening brace, parses back to the task
/// it was written from.
#[verifier::rlimit(100)]
#[verifier::spinoff_prover]
proof fn lemma_parse_task(s: Seq<char>, i: int, t: TaskView)
    requires
        has_at(s, i, task_core(t)),
    ensures
        parse_task(s, i) == Some((t, i + task_core(t).len())),
{
    let a = seq!['{', '\n'] + ind4();
    let m1 = quoted(kw_description()) + seq![':', ' '] + jstr(t.description);
    let b = seq![',', '\n'] + ind4();
    let m2 = quoted(kw_completed()) + seq![':', ' '] + jbool(t.completed);
    let m3 = quoted(kw_importance()) + seq![':', ' '] + quoted(label_of(t.importance));
    let c = seq!['\n'] + ind2() + seq!['}'];
    assert(task_core(t) =~= a + (m1 + (b + (m2 + (b + (m3 + c))))));
    lemma_has_at_split(s, i, a, m1 + (b + (m2 + (b + (m3 + c)))));
    let i1 = i + 6;
    lemma_has_at_split(s, i1, m1, b + (m2 + (b + (m3 + c))));
    let i2 = i1 + m1.len();
    lemma_has_at_split(s, i2, b, m2 + (b + (m3 + c)));
    let i3 = i2 + 6;
    lemma_has_at_split(s, i3, m2, b + (m3 + c));
    let i4 = i3 + m2.len();
    lemma_has_at_split(s, i4, b, m3 + c);
    let i5 = i4 + 6;
    lemma_has_at_split(s, i5, m3, c);
    let i6 = i5 + m3.len();

    lemma_has_at_char(s, i, a, 0);
    lemma_has_at_char(s, i, a, 1);
    lemma_has_at_char(s, i, a, 2);
    lemma_has_at_char(s, i, a, 3);
    lemma_has_at_char(s, i, a, 4);
    lemma_has_at_char(s, i, a, 5);
    lemma_has_at_char(s, i1, m1, 0);
    assert(s[i] == '{');
    lemma_skip_run(s, i + 1, 5);
    lemma_parse_member_desc(s, i1, t.description);

    lemma_has_at_char(s, i2, b, 0);
    lemma_has_at_char(s, i2, b, 1);
    lemma_has_at_char(s, i2, b, 2);
    lemma_has_at_char(s, i2, b, 3);
    lemma_has_at_char(s, i2, b, 4);
    lemma_has_at_char(s, i2, b, 5);
    lemma_has_at_char(s, i3, m2, 0);
    assert(s[i2] == ',');
    lemma_skip_run(s, i2, 0);
    lemma_skip_run(s, i2 + 1, 5);
    lemma_parse_member_comp(s, i3, t.completed);

    lemma_has_at_char(s, i4, b, 0);
    lemma_has_at_char(s, i4, b, 1);
    lemma_has_at_char(s, i4, b, 2);
    lemma_has_at_char(s, i4, b, 3);
    lemma_has_at_char(s, i4, b, 4);
    lemma_has_at_char(s, i4, b, 5);
    lemma_has_at_char(s, i5, m3, 0);
    assert(s[i4] == ',');
    lemma_skip_run(s, i4, 0);
    lemma_skip_run(s, i4 + 1, 5);
    lemma_parse_member_imp(s, i5, t.importance);

    lemma_has_at_char(s, i6, c, 0);
    lemma_has_at_char(s, i6, c, 1);
    lemma_has_at_char(s, i6, c, 2);
    lemma_has_at_char(s, i6, c, 3);
    assert(s[i6 + 3] == '}');
    lemma_skip_run(s, i6, 3);

    assert(mk_task(
        Member::Desc(t.description),
        Member::Comp(t.completed),
        Member::Imp(t.importance),
    ) == Some(t));
    assert(i6 + 4 == i + task_core(t).len());
}

/// The items of a non-empty list, as the parser meets them: from the first
/// opening brace through the closing bracket of the array.
spec fn items_from(ts: Seq<TaskView>) -> Seq<char>
    decreases ts.len(),
{
    if ts.len() <= 1 {
        task_core(ts[0]) + seq!['\n', ']']
    } else {
        task_core(ts[0]) + seq![',', '\n'] + ind2() + items_from(ts.drop_first())
    }
}

/// The joined items split at the front as well as at the back.
proof fn lemma_items_front(ts: Seq<TaskView>)
    requires
        ts.len() >= 2,
    ensures
        items_of(ts) == task_obj(ts[0]) + seq![',', '\n'] + items_of(ts.drop_first()),
    decreases ts.len(),
{
    assert(items_of(ts) == items_of(ts.drop_last()) + seq![',', '\n'] + task_obj(ts.last()));
    if ts.len() == 2 {
        assert(ts.drop_last()[0] == ts[0]);
        assert(ts.drop_last().len() == 1);
        assert(items_of(ts.drop_last()) == task_obj(ts.drop_last()[0]));
        assert(ts.drop_first().len() == 1);
        assert(ts.drop_first()[0] == ts[1]);
        assert(items_of(ts.drop_first()) == task_obj(ts.drop_first()[0]));
        assert(ts.last() == ts[1]);
    } else {
        lemma_items_front(ts.drop_last());
        assert(ts.drop_last()[0] == ts[0]);
        assert(ts.drop_last().drop_first() =~= ts.drop_first().drop_last());
        assert(ts.drop_first().last() == ts.last());
        assert(items_of(ts.drop_first()) == items_of(ts.drop_first().drop_last()) + seq![',', '\n']
            + task_obj(ts.drop_first().last()));
        assert((task_obj(ts[0]) + seq![',', '\n'] + items_of(ts.drop_last().drop_first())) + seq![
            ',',
            '\n',
        ] + task_obj(ts.last()) =~= task_obj(ts[0]) + seq![',', '\n'] + (items_of(
            ts.drop_first().drop_last(),
        ) + seq![',', '\n'] + task_obj(ts.drop_first().last())));
    }
}

/// The written items, with the array's closing, are the indentation and
/// then the items as the parser meets them.
proof fn lemma_items_text(ts: Seq<TaskView>)
    requires
        ts.len() >= 1,
    ensures
        items_of(ts) + seq!['\n', ']'] == ind2() + items_from(ts),
    decreases ts.len(),
{
    if ts.len() == 1 {
        assert((ind2() + task_core(ts[0])) + seq!['\n', ']'] =~= ind2() + (task_core(ts[0]) + seq![
            '\n',
            ']',
        ]));
    } else {
        lemma_items_front(ts);
        lemma_items_text(ts.drop_first());
        let d = ts.drop_first();
        assert((task_obj(ts[0]) + seq![',', '\n'] + items_of(d)) + seq!['\n', ']'] =~= task_obj(
            ts[0],
        ) + seq![',', '\n'] + (items_of(d) + seq!['\n', ']']));
        assert(task_obj(ts[0]) + seq![',', '\n'] + (ind2() + items_from(d)) =~= ind2() + (
        task_core(ts[0]) + seq![',', '\n'] + ind2() + items_from(d)));
    }
}

/// The parser's text for a list is at least one character per task.
proof fn lemma_items_from_len(ts: Seq<TaskView>)
    requires
        ts.len() >= 1,
    ensures
        items_from(ts).len() >= ts.len(),
    decreases ts.len(),
{
    if ts.len() > 1 {
        lemma_items_from_len(ts.drop_first());
    }
}

/// The written items of a non-empty list parse back to exactly that list,
/// consuming everything through the closing bracket.
#[verifier::rlimit(100)]
#[verifier::spinoff_prover]
proof fn lemma_parse_items(s: Seq<char>, i: int, ts: Seq<TaskView>, n: nat)
    requires
        ts.len() >= 1,
        n >= ts.len(),
        has_at(s, i, items_from(ts)),
    ensures
        parse_items(s, i, n) == Some((ts, i + items_from(ts).len())),
    decreases ts.len(),
{
    if ts.len() == 1 {
        let w2 = seq!['\n', ']'];
        lemma_has_at_split(s, i, task_core(ts[0]), w2);
        let j = i + task_core(ts[0]).len();
        lemma_parse_task(s, i, ts[0]);
        lemma_has_at_char(s, j, w2, 0);
        lemma_has_at_char(s, j, w2, 1);
        assert(s[j] == '\n' && s[j + 1] == ']');
        lemma_skip_run(s, j, 1);
        assert(seq![ts[0]] =~= ts);
    } else {
        let d = ts.drop_first();
        let w2 = seq![',', '\n'] + ind2();
        assert(items_from(ts) =~= task_core(ts[0]) + (w2 + items_from(d)));
        lemma_has_at_split(s, i, task_core(ts[0]), w2 + items_from(d));
        let j = i + task_core(ts[0]).len();
        lemma_has_at_split(s, j, w2, items_from(d));
        lemma_parse_task(s, i, ts[0]);
        lemma_has_at_char(s, j, w2, 0);
        lemma_has_at_char(s, j, w2, 1);
        lemma_has_at_char(s, j, w2, 2);
        lemma_has_at_char(s, j, w2, 3);
        assert(s[j] == ',');
        lemma_skip_run(s, j, 0);
        lemma_items_from_len(d);
        assert(task_core(d[0])[0] == '{');
        assert(items_from(d)[0] == '{');
        lemma_has_at_char(s, j + 4, items_from(d), 0);
        assert(s[j + 4] == '{');
        lemma_skip_run(s, j + 1, 3);
        lemma_parse_items(s, j + 4, d, (n - 1) as nat);
        assert(seq![ts[0]] + d =~= ts);
    }
}

/// The document of a non-empty list is the bracket, the whitespace run,
/// and then the items as the parser meets them.
#[verifier::rlimit(100)]
#[verifier::spinoff_prover]
proof fn lemma_doc_shape(ts: Seq<TaskView>)
    requires
        ts.len() >= 1,
    ensures
        json_of(ts) == seq!['['] + ((seq!['\n'] + ind2()) + items_from(ts)),
{
    lemma_items_text(ts);
    let s = json_of(ts);
    assert(s =~= seq!['[', '\n'] + (items_of(ts) + seq!['\n', ']']));
    assert(seq!['[', '\n'] + (ind2() + items_from(ts)) =~= seq!['['] + ((seq!['\n'] + ind2())
        + items_from(ts)));
}

/// The parser's item text opens with a brace.
proof fn lemma_items_from_first(ts: Seq<TaskView>)
    requires
        ts.len() >= 1,
    ensures
        items_from(ts).len() >= ts.len(),
        items_from(ts)[0] == '{',
{
    lemma_items_from_len(ts);
    assert(task_core(ts[0])[0] == '{');
}

/// In a text of that shape, the array parses to exactly the list and ends
/// the text.
#[verifier::rlimit(100)]
#[verifier::spinoff_prover]
proof fn lemma_parse_array_at(s: Seq<char>, ts: Seq<TaskView>)
    requires
        ts.len() >= 1,
        s == seq!['['] + ((seq!['\n'] + ind2()) + items_from(ts)),
    ensures
        skip_ws(s, 0) == 0,
        parse_array(s, 0) == Some((ts, s.len() as int)),
{
    lemma_items_from_first(ts);
    let wsrun = seq!['\n'] + ind2();
    assert(s.subrange(0, s.len() as int) =~= s);
    assert(has_at(s, 0, seq!['['] + (wsrun + items_from(ts))));
    lemma_has_at_split(s, 0, seq!['['], wsrun + items_from(ts));
    lemma_has_at_split(s, 1, wsrun, items_from(ts));
    lemma_has_at_char(s, 0, seq!['['], 0);
    lemma_has_at_char(s, 1, wsrun, 0);
    lemma_has_at_char(s, 1, wsrun, 1);
    lemma_has_at_char(s, 1, wsrun, 2);
    assert(s[0] == '[');
    lemma_skip_run(s, 0, 0);
    lemma_has_at_char(s, 4, items_from(ts), 0);
    assert(s[4] == '{');
    lemma_skip_run(s, 1, 3);
    lemma_parse_items(s, 4, ts, s.len() as nat);
}

/// A text of that shape parses to exactly the list.
#[verifier::rlimit(100)]
#[verifier::spinoff_prover]
proof fn lemma_parse_doc_at(s: Seq<char>, ts: Seq<TaskView>)
    requires
        ts.len() >= 1,
        s == seq!['['] + ((seq!['\n'] + ind2()) + items_from(ts)),
    ensures
        parse_doc(s) == Some(ts),
{
    lemma_parse_array_at(s, ts);
    assert(ws_len(s, s.len() as int) == 0);
    assert(skip_ws(s, s.len() as int) == s.len());
}

/// Round trip: the persisted text of any task list parses back to exactly
/// that list.
#[verifier::rlimit(100)]
#[verifier::spinoff_prover]
pub proof fn law_round_trip(ts: Seq<TaskView>)
    ensures
        parse_doc(json_of(ts)) == Some(ts),
{
    let s = json_of(ts);
    if ts.len() == 0 {
        assert(s == seq!['[', ']']);
        assert(!is_ws(s[0]) && !is_ws(s[1]));
        assert(ws_len(s, 0) == 0);
        assert(ws_len(s, 1) == 0);
        assert(ws_len(s, 2) == 0);
        assert(parse_array(s, 0) == Some((Seq::<TaskView>::empty(), 2int)));
        assert(ts =~= Seq::<TaskView>::empty());
    } else {
        lemma_doc_shape(ts);
        lemma_parse_doc_at(json_of(ts), ts);
    }
}

/// Append-only: persisting a list with one task appended yields a document
/// whose list is one longer, keeps every earlier task in place, and ends
/// in the appended task.
pub proof fn law_append_only(ts: Seq<TaskView>, t: TaskView)
    ensures
        parse_doc(json_of(ts.push(t))) == Some(ts.push(t)),
        ts.push(t).len() == ts.len() + 1,
        forall|k: int| 0 <= k < ts.len() ==> ts.push(t)[k] == ts[k],
        ts.push(t).last() == t,
{
    law_round_trip(ts.push(t));
}

/// Empty-file tolerance: a zero-length database text loads as the empty
/// list, `read` answers it with the empty-list line, and adding one task
/// to it persists a document that parses to exactly that one task.
pub proof fn law_empty_file(t: TaskView)
    ensures
        crate::store::loaded_of(Seq::<char>::empty()) == Some(Seq::<TaskView>::empty()),
        crate::dispatch::read_reply_of(Seq::<char>::empty())
            == "Your todo list is empty. Great job partner."@,
        parse_doc(json_of(seq![t])) == Some(seq![t]),
{
    law_round_trip(seq![t]);
}

} // verus!
