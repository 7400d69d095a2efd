use vstd::prelude::*;
use crate::params::ParameterMap;
use crate::text::chars_to_string;

verus! {

/// Scalar of the structured-text representation the bridge serializes to and
/// decodes from: a flat object of these scalars is the whole document.
#[derive(Clone, PartialEq, Eq, Debug)]
pub enum JsonScalar {
    Null,
    Bool(bool),
    Int(i64),
    Text(String),
}

/// Mathematical model of a scalar: text as a character sequence.
pub enum ScalarModel {
    Null,
    Bool(bool),
    Int(i64),
    Text(Seq<char>),
}

impl View for JsonScalar {
    type V = ScalarModel;

    open spec fn view(&self) -> ScalarModel {
        match *self {
            JsonScalar::Null => ScalarModel::Null,
            JsonScalar::Bool(b) => ScalarModel::Bool(b),
            JsonScalar::Int(i) => ScalarModel::Int(i),
            JsonScalar::Text(s) => ScalarModel::Text(s@),
        }
    }
}

/// Model of a parsed document: named scalars in textual order.
pub open spec fn obj_model(s: Seq<(String, JsonScalar)>) -> Seq<(Seq<char>, ScalarModel)> {
    s.map_values(|p: (String, JsonScalar)| (p.0@, p.1@))
}

/// Model of a string map seen as a document whose values are all text.
pub open spec fn text_obj(m: Seq<(Seq<char>, Seq<char>)>) -> Seq<(Seq<char>, ScalarModel)> {
    m.map_values(|p: (Seq<char>, Seq<char>)| (p.0, ScalarModel::Text(p.1)))
}

// ---------------------------------------------------------------------------
// Rendering: a string map to canonical structured text.
// ---------------------------------------------------------------------------

/// Escape for text literals: quote and backslash get a backslash prefix,
/// every other character stands for itself.
pub open spec fn escape_chars(s: Seq<char>) -> Seq<char>
    decreases s.len(),
{
    if s.len() == 0 {
        Seq::empty()
    } else {
        let c = s[0];
        let head: Seq<char> = if c == '"' || c == '\\' {
            seq!['\\', c]
        } else {
            seq![c]
        };
        head + escape_chars(s.drop_first())
    }
}

pub open spec fn render_text(s: Seq<char>) -> Seq<char> {
    seq!['"'] + escape_chars(s) + seq!['"']
}

pub open spec fn render_entry(p: (Seq<char>, Seq<char>)) -> Seq<char> {
    render_text(p.0) + seq![':'] + render_text(p.1)
}

pub open spec fn render_entries_rest(s: Seq<(Seq<char>, Seq<char>)>) -> Seq<char>
    decreases s.len(),
{
    if s.len() == 0 {
        Seq::empty()
    } else {
        seq![','] + render_entry(s[0]) + render_entries_rest(s.drop_first())
    }
}

pub open spec fn render_map_pairs(s: Seq<(Seq<char>, Seq<char>)>) -> Seq<char>
    recommends
        s.len() > 0,
{
    render_entry(s[0]) + render_entries_rest(s.drop_first())
}

/// Canonical structured text of a string map, in binding order.
pub open spec fn render_map(s: Seq<(Seq<char>, Seq<char>)>) -> Seq<char> {
    if s.len() == 0 {
        seq!['{', '}']
    } else {
        seq!['{'] + render_map_pairs(s) + seq!['}']
    }
}

proof fn lemma_escape_push(s: Seq<char>, c: char)
    ensures
        escape_chars(s.push(c)) =~= escape_chars(s) + (if c == '"' || c == '\\' {
            seq!['\\', c]
        } else {
            seq![c]
        }),
    decreases s.len(),
{
    let head: Seq<char> = if c == '"' || c == '\\' {
        seq!['\\', c]
    } else {
        seq![c]
    };
    if s.len() == 0 {
        assert(s.push(c).drop_first() =~= Seq::<char>::empty());
        assert(s.push(c)[0] == c);
        assert(escape_chars(Seq::<char>::empty()) =~= Seq::<char>::empty());
        assert(escape_chars(s.push(c)) =~= head + escape_chars(Seq::<char>::empty()));
        assert(escape_chars(s.push(c)) =~= escape_chars(s) + head);
    } else {
        assert(s.push(c)[0] == s[0]);
        assert(s.push(c).drop_first() =~= s.drop_first().push(c));
        lemma_escape_push(s.drop_first(), c);
        let h0: Seq<char> = if s[0] == '"' || s[0] == '\\' {
            seq!['\\', s[0]]
        } else {
            seq![s[0]]
        };
        assert(escape_chars(s.push(c)) =~= h0 + escape_chars(s.drop_first().push(c)));
        assert(escape_chars(s.push(c)) =~= h0 + (escape_chars(s.drop_first()) + head));
        assert(escape_chars(s) =~= h0 + escape_chars(s.drop_first()));
        assert(escape_chars(s.push(c)) =~= escape_chars(s) + head);
    }
}

proof fn lemma_entries_rest_push(s: Seq<(Seq<char>, Seq<char>)>, p: (Seq<char>, Seq<char>))
    ensures
        render_entries_rest(s.push(p)) =~= render_entries_rest(s) + seq![','] + render_entry(p),
    decreases s.len(),
{
    if s.len() == 0 {
        assert(s.push(p).drop_first() =~= Seq::<(Seq<char>, Seq<char>)>::empty());
        assert(s.push(p)[0] == p);
        assert(render_entries_rest(Seq::<(Seq<char>, Seq<char>)>::empty())
            =~= Seq::<char>::empty());
        assert(render_entries_rest(s.push(p)) =~= seq![','] + render_entry(p)
            + render_entries_rest(Seq::<(Seq<char>, Seq<char>)>::empty()));
        assert(render_entries_rest(s.push(p)) =~= render_entries_rest(s) + seq![',']
            + render_entry(p));
    } else {
        assert(s.push(p)[0] == s[0]);
        assert(s.push(p).drop_first() =~= s.drop_first().push(p));
        lemma_entries_rest_push(s.drop_first(), p);
        assert(render_entries_rest(s.push(p)) =~= seq![','] + render_entry(s[0])
            + render_entries_rest(s.drop_first().push(p)));
        assert(render_entries_rest(s) =~= seq![','] + render_entry(s[0])
            + render_entries_rest(s.drop_first()));
        assert(render_entries_rest(s.push(p)) =~= render_entries_rest(s) + seq![',']
            + render_entry(p));
    }
}

fn push_escaped(out: &mut Vec<char>, s: &String)
    ensures
        final(out)@ == old(out)@ + escape_chars(s@),
{
    let n: usize = s.as_str().unicode_len();
    let mut i: usize = 0;
    proof {
        assert(s@.subrange(0, 0) =~= Seq::<char>::empty());
        assert(out@ =~= out@ + escape_chars(s@.subrange(0, 0)));
    }
    while i < n
        invariant
            n == s@.len(),
            0 <= i <= n,
            out@ == old(out)@ + escape_chars(s@.subrange(0, i as int)),
        decreases n - i,
    {
        let c = s.as_str().get_char(i);
        if c == '"' || c == '\\' {
            out.push('\\');
            out.push(c);
        } else {
            out.push(c);
        }
        proof {
            assert(s@.subrange(0, i + 1) =~= s@.subrange(0, i as int).push(s@[i as int]));
            lemma_escape_push(s@.subrange(0, i as int), s@[i as int]);
            assert(out@ =~= old(out)@ + escape_chars(s@.subrange(0, i + 1)));
        }
        i += 1;
    }
    proof {
        assert(s@.subrange(0, n as int) =~= s@);
    }
}

fn push_text(out: &mut Vec<char>, s: &String)
    ensures
        final(out)@ == old(out)@ + render_text(s@),
{
    out.push('"');
    push_escaped(out, s);
    out.push('"');
    proof {
        assert(out@ =~= old(out)@ + render_text(s@));
    }
}

/// The serializer half of the bridge: a parameter map rendered as canonical
/// structured text, one text-valued field per binding, in binding order.
pub fn render_parameter_map(m: &ParameterMap) -> (r: Vec<char>)
    ensures
        r@ == render_map(m@),
{
    let pairs = m.bindings();
    let n: usize = pairs.len();
    let mut out: Vec<char> = Vec::new();
    out.push('{');
    let mut i: usize = 0;
    while i < n
        invariant
            n == pairs@.len(),
            crate::params::pairs_model(pairs@) == m@,
            0 <= i <= n,
            i == 0 ==> out@ == seq!['{'],
            i > 0 ==> out@ == seq!['{'] + render_entry(m@[0]) + render_entries_rest(
                m@.subrange(1, i as int),
            ),
        decreases n - i,
    {
        if i > 0 {
            out.push(',');
        }
        push_text(&mut out, &pairs[i].0);
        out.push(':');
        push_text(&mut out, &pairs[i].1);
        proof {
            assert(m@[i as int] == (pairs@[i as int].0@, pairs@[i as int].1@));
            if i == 0 {
                assert(out@ =~= seq!['{'] + render_entry(m@[0]) + render_entries_rest(
                    m@.subrange(1, 1),
                ));
            } else {
                assert(m@.subrange(1, i + 1) =~= m@.subrange(1, i as int).push(m@[i as int]));
                lemma_entries_rest_push(m@.subrange(1, i as int), m@[i as int]);
                assert(out@ =~= seq!['{'] + render_entry(m@[0]) + render_entries_rest(
                    m@.subrange(1, i + 1),
                ));
            }
        }
        i += 1;
    }
    out.push('}');
    proof {
        if n == 0 {
            assert(out@ =~= render_map(m@));
        } else {
            assert(m@.subrange(1, n as int) =~= m@.drop_first());
            assert(out@ =~= render_map(m@));
        }
    }
    out
}

// ---------------------------------------------------------------------------
// Parsing: structured text to a document model.
// ---------------------------------------------------------------------------

pub open spec fn is_digit(c: char) -> bool {
    48 <= (c as u32) && (c as u32) <= 57
}

pub open spec fn digit_val(c: char) -> int {
    (c as u32) - 48
}

/// Length of the leading run of digits.
pub open spec fn digit_count(s: Seq<char>) -> int
    decreases s.len(),
{
    if s.len() == 0 || !is_digit(s[0]) {
        0
    } else {
        1 + digit_count(s.drop_first())
    }
}

/// Decimal value of an all-digit sequence.
pub open spec fn digits_value(s: Seq<char>) -> int
    decreases s.len(),
{
    if s.len() == 0 {
        0
    } else {
        digits_value(s.drop_last()) * 10 + digit_val(s.last())
    }
}

/// The remainder-style parser for a text literal body, after the opening
/// quote: unescapes up to the closing quote, or fails.
pub open spec fn sp_text_body(s: Seq<char>) -> Option<(Seq<char>, Seq<char>)>
    decreases s.len(),
{
    if s.len() == 0 {
        None
    } else if s[0] == '"' {
        Some((Seq::empty(), s.drop_first()))
    } else if s[0] == '\\' {
        if s.len() >= 2 && (s[1] == '"' || s[1] == '\\') {
            match sp_text_body(s.skip(2)) {
                Some(p) => Some((seq![s[1]] + p.0, p.1)),
                None => None,
            }
        } else {
            None
        }
    } else {
        match sp_text_body(s.drop_first()) {
            Some(p) => Some((seq![s[0]] + p.0, p.1)),
            None => None,
        }
    }
}

pub open spec fn sp_int(s: Seq<char>) -> Option<(ScalarModel, Seq<char>)> {
    let neg = s.len() > 0 && s[0] == '-';
    let body = if neg {
        s.drop_first()
    } else {
        s
    };
    let n = digit_count(body);
    if n == 0 {
        None
    } else {
        let mag = digits_value(body.subrange(0, n));
        let v: int = if neg {
            -mag
        } else {
            mag
        };
        if i64::MIN <= v <= i64::MAX {
            Some((ScalarModel::Int(v as i64), body.skip(n)))
        } else {
            None
        }
    }
}

pub open spec fn kw_null() -> Seq<char> {
    seq!['n', 'u', 'l', 'l']
}

pub open spec fn kw_true() -> Seq<char> {
    seq!['t', 'r', 'u', 'e']
}

pub open spec fn kw_false() -> Seq<char> {
    seq!['f', 'a', 'l', 's', 'e']
}

pub open spec fn sp_scalar(s: Seq<char>) -> Option<(ScalarModel, Seq<char>)> {
    if s.len() == 0 {
        None
    } else if s[0] == '"' {
        match sp_text_body(s.drop_first()) {
            Some(p) => Some((ScalarModel::Text(p.0), p.1)),
            None => None,
        }
    } else if s.len() >= 4 && s.subrange(0, 4) == kw_null() {
        Some((ScalarModel::Null, s.skip(4)))
    } else if s.len() >= 4 && s.subrange(0, 4) == kw_true() {
        Some((ScalarModel::Bool(true), s.skip(4)))
    } else if s.len() >= 5 && s.subrange(0, 5) == kw_false() {
        Some((ScalarModel::Bool(false), s.skip(5)))
    } else {
        sp_int(s)
    }
}

/// One `"name":scalar` entry.
pub open spec fn sp_entry(s: Seq<char>) -> Option<((Seq<char>, ScalarModel), Seq<char>)> {
    if s.len() > 0 && s[0] == '"' {
        match sp_text_body(s.drop_first()) {
            Some(kp) => if kp.1.len() > 0 && kp.1[0] == ':' {
                match sp_scalar(kp.1.drop_first()) {
                    Some(vp) => Some(((kp.0, vp.0), vp.1)),
                    None => None,
                }
            } else {
                None
            },
            None => None,
        }
    } else {
        None
    }
}

/// Comma-separated entries up to and including the closing brace.
pub open spec fn sp_entries(s: Seq<char>) -> Option<(Seq<(Seq<char>, ScalarModel)>, Seq<char>)>
    decreases s.len(),
{
    match sp_entry(s) {
        Some(ep) => {
            let rest = ep.1;
            if rest.len() > 0 && rest[0] == ',' {
                if rest.len() < s.len() {
                    match sp_entries(rest.drop_first()) {
                        Some(tp) => Some((seq![ep.0] + tp.0, tp.1)),
                        None => None,
                    }
                } else {
                    None
                }
            } else if rest.len() > 0 && rest[0] == '}' {
                Some((seq![ep.0], rest.drop_first()))
            } else {
                None
            }
        },
        None => None,
    }
}

/// A whole document: one object of scalars, consuming the entire input.
pub open spec fn sp_doc(s: Seq<char>) -> Option<Seq<(Seq<char>, ScalarModel)>> {
    if s.len() >= 1 && s[0] == '{' {
        let body = s.drop_first();
        if body.len() >= 1 && body[0] == '}' {
            if body.len() == 1 {
                Some(Seq::empty())
            } else {
                None
            }
        } else {
            match sp_entries(body) {
                Some(p) => if p.1.len() == 0 {
                    Some(p.0)
                } else {
                    None
                },
                None => None,
            }
        }
    } else {
        None
    }
}

// ---------------------------------------------------------------------------
// The executable parser, proved to compute exactly the spec parse.
// ---------------------------------------------------------------------------

pub open spec fn opt_prepend(p: Seq<char>, o: Option<(Seq<char>, Seq<char>)>) -> Option<(
    Seq<char>,
    Seq<char>,
)> {
    match o {
        Some(q) => Some((p + q.0, q.1)),
        None => None,
    }
}

proof fn lemma_opt_prepend_empty(o: Option<(Seq<char>, Seq<char>)>)
    ensures
        opt_prepend(Seq::empty(), o) == o,
{
    match o {
        Some(q) => {
            assert(Seq::<char>::empty() + q.0 =~= q.0);
            assert((q.0, q.1) == o->Some_0);
        },
        None => {},
    }
}

proof fn lemma_opt_prepend_push(a: Seq<char>, c: char, o: Option<(Seq<char>, Seq<char>)>)
    ensures
        opt_prepend(a, opt_prepend(seq![c], o)) == opt_prepend(a.push(c), o),
{
    match o {
        Some(q) => {
            assert(a + (seq![c] + q.0) =~= a.push(c) + q.0);
        },
        None => {},
    }
}

fn ex_text_body(s: &Vec<char>, pos: usize) -> (r: Option<(Vec<char>, usize)>)
    requires
        pos <= s@.len(),
    ensures
        match r {
            Some(p) => pos < p.1 <= s@.len() && sp_text_body(s@.skip(pos as int)) == Some(
                (p.0@, s@.skip(p.1 as int)),
            ),
            None => sp_text_body(s@.skip(pos as int)) is None,
        },
{
    let mut acc: Vec<char> = Vec::new();
    let mut cur: usize = pos;
    proof {
        lemma_opt_prepend_empty(sp_text_body(s@.skip(pos as int)));
        assert(acc@ =~= Seq::<char>::empty());
    }
    loop
        invariant
            pos <= cur <= s@.len(),
            opt_prepend(acc@, sp_text_body(s@.skip(cur as int))) == sp_text_body(
                s@.skip(pos as int),
            ),
        decreases s@.len() - cur,
    {
        let ghost w = s@.skip(cur as int);
        if cur >= s.len() {
            proof {
                assert(w =~= Seq::<char>::empty());
            }
            return None;
        }
        let c = s[cur];
        proof {
            assert(w[0] == s@[cur as int]);
            assert(w.len() == s@.len() - cur);
        }
        if c == '"' {
            proof {
                assert(w.drop_first() =~= s@.skip(cur as int + 1));
                assert(sp_text_body(w) == Some((Seq::<char>::empty(), s@.skip(cur as int + 1))));
                assert(acc@ + Seq::<char>::empty() =~= acc@);
            }
            return Some((acc, cur + 1));
        } else if c == '\\' {
            if cur + 1 < s.len() {
                let c2 = s[cur + 1];
                if c2 == '"' || c2 == '\\' {
                    proof {
                        assert(w[1] == s@[cur as int + 1]);
                        assert(w.skip(2) =~= s@.skip(cur as int + 2));
                        assert(sp_text_body(w) == opt_prepend(
                            seq![c2],
                            sp_text_body(s@.skip(cur as int + 2)),
                        ));
                        lemma_opt_prepend_push(acc@, c2, sp_text_body(s@.skip(cur as int + 2)));
                    }
                    acc.push(c2);
                    cur = cur + 2;
                } else {
                    proof {
                        assert(w[1] == s@[cur as int + 1]);
                        assert(sp_text_body(w) is None);
                    }
                    return None;
                }
            } else {
                proof {
                    assert(w.len() == 1);
                    assert(sp_text_body(w) is None);
                }
                return None;
            }
        } else {
            proof {
                assert(w.drop_first() =~= s@.skip(cur as int + 1));
                assert(sp_text_body(w) == opt_prepend(
                    seq![c],
                    sp_text_body(s@.skip(cur as int + 1)),
                ));
                lemma_opt_prepend_push(acc@, c, sp_text_body(s@.skip(cur as int + 1)));
            }
            acc.push(c);
            cur = cur + 1;
        }
    }
}

proof fn lemma_digits_value_nonneg(s: Seq<char>)
    requires
        forall|i: int| 0 <= i < s.len() ==> is_digit(s[i]),
    ensures
        digits_value(s) >= 0,
    decreases s.len(),
{
    if s.len() > 0 {
        assert(forall|i: int| 0 <= i < s.drop_last().len() ==> s.drop_last()[i] == s[i]);
        lemma_digits_value_nonneg(s.drop_last());
        assert(is_digit(s.last()));
    }
}

fn ex_int(s: &Vec<char>, pos: usize) -> (r: Option<(i64, usize)>)
    requires
        pos <= s@.len(),
    ensures
        match r {
            Some(p) => pos < p.1 <= s@.len() && sp_int(s@.skip(pos as int)) == Some(
                (ScalarModel::Int(p.0), s@.skip(p.1 as int)),
            ),
            None => sp_int(s@.skip(pos as int)) is None,
        },
{
    let ghost whole = s@.skip(pos as int);
    let mut neg = false;
    let mut dstart: usize = pos;
    if pos < s.len() {
        if s[pos] == '-' {
            neg = true;
            dstart = pos + 1;
        }
    }
    let ghost body = if neg {
        whole.drop_first()
    } else {
        whole
    };
    proof {
        assert(body =~= s@.skip(dstart as int));
        if pos < s.len() {
            assert(whole[0] == s@[pos as int]);
        }
    }
    let n: usize = s.len();
    let mut cur: usize = dstart;
    let mut mag: u128 = 0;
    let mut over = false;
    proof {
        assert(s@.subrange(dstart as int, dstart as int) =~= Seq::<char>::empty());
    }
    while cur < n && 48 <= (s[cur] as u32) && (s[cur] as u32) <= 57
        invariant
            pos <= dstart <= cur <= n == s@.len(),
            body =~= s@.skip(dstart as int),
            forall|j: int| dstart <= j < cur ==> is_digit(s@[j]),
            digit_count(s@.skip(dstart as int)) == (cur - dstart) + digit_count(
                s@.skip(cur as int),
            ),
            !over ==> mag == digits_value(s@.subrange(dstart as int, cur as int)) && mag
                <= 9223372036854775808u128,
            over ==> digits_value(s@.subrange(dstart as int, cur as int))
                > 9223372036854775808,
        decreases n - cur,
    {
        let c = s[cur];
        let d: u128 = ((c as u32) - 48) as u128;
        proof {
            assert(s@.skip(cur as int)[0] == s@[cur as int]);
            assert(is_digit(s@[cur as int]));
            assert(s@.skip(cur as int).drop_first() =~= s@.skip(cur as int + 1));
            assert(digit_count(s@.skip(cur as int)) == 1 + digit_count(s@.skip(cur as int + 1)));
            assert(s@.subrange(dstart as int, cur as int + 1).drop_last() =~= s@.subrange(
                dstart as int,
                cur as int,
            ));
            assert(s@.subrange(dstart as int, cur as int + 1).last() == s@[cur as int]);
            assert(digits_value(s@.subrange(dstart as int, cur as int + 1)) == digits_value(
                s@.subrange(dstart as int, cur as int),
            ) * 10 + digit_val(s@[cur as int]));
            assert(forall|i: int|
                0 <= i < s@.subrange(dstart as int, cur as int).len() ==> is_digit(
                    s@.subrange(dstart as int, cur as int)[i],
                ));
            lemma_digits_value_nonneg(s@.subrange(dstart as int, cur as int));
        }
        if !over {
            let cand: u128 = mag * 10 + d;
            if cand > 9223372036854775808u128 {
                over = true;
            } else {
                mag = cand;
            }
        }
        cur = cur + 1;
    }
    proof {
        if cur == n {
            assert(s@.skip(cur as int) =~= Seq::<char>::empty());
            assert(digit_count(s@.skip(cur as int)) == 0);
        } else {
            assert(s@.skip(cur as int)[0] == s@[cur as int]);
            assert(!is_digit(s@[cur as int]));
            assert(digit_count(s@.skip(cur as int)) == 0);
        }
    }
    let ndig: usize = cur - dstart;
    let ghost run = s@.subrange(dstart as int, cur as int);
    proof {
        assert(digit_count(body) == ndig);
        if ndig > 0 {
            assert(body.subrange(0, ndig as int) =~= run);
            assert(body.skip(ndig as int) =~= s@.skip(cur as int));
        }
    }
    if ndig == 0 {
        return None;
    }
    if over {
        proof {
            lemma_digits_value_nonneg(run);
        }
        return None;
    }
    if neg {
        if mag == 9223372036854775808u128 {
            return Some((i64::MIN, cur));
        } else {
            return Some((-(mag as i64), cur));
        }
    } else {
        if mag >= 9223372036854775808u128 {
            return None;
        } else {
            return Some((mag as i64, cur));
        }
    }
}

fn ex_scalar(s: &Vec<char>, pos: usize) -> (r: Option<(JsonScalar, usize)>)
    requires
        pos <= s@.len(),
    ensures
        match r {
            Some(p) => pos < p.1 <= s@.len() && sp_scalar(s@.skip(pos as int)) == Some(
                (p.0@, s@.skip(p.1 as int)),
            ),
            None => sp_scalar(s@.skip(pos as int)) is None,
        },
{
    let ghost w = s@.skip(pos as int);
    if pos >= s.len() {
        proof {
            assert(w.len() == 0);
        }
        return None;
    }
    let c = s[pos];
    proof {
        assert(w[0] == s@[pos as int]);
        assert(w.len() == s@.len() - pos);
        assert(forall|j: int| 0 <= j < w.len() ==> w[j] == s@[pos + j]);
        assert(kw_null()[0] == 'n' && kw_null()[1] == 'u' && kw_null()[2] == 'l' && kw_null()[3]
            == 'l');
        assert(kw_true()[0] == 't' && kw_true()[1] == 'r' && kw_true()[2] == 'u' && kw_true()[3]
            == 'e');
        assert(kw_false()[0] == 'f' && kw_false()[1] == 'a' && kw_false()[2] == 'l'
            && kw_false()[3] == 's' && kw_false()[4] == 'e');
    }
    if c == '"' {
        proof {
            assert(w.drop_first() =~= s@.skip(pos as int + 1));
        }
        match ex_text_body(s, pos + 1) {
            Some((v, np)) => {
                let txt = chars_to_string(&v);
                return Some((JsonScalar::Text(txt), np));
            },
            None => {
                return None;
            },
        }
    } else if c == 'n' {
        if s.len() - pos >= 4 && s[pos + 1] == 'u' && s[pos + 2] == 'l' && s[pos + 3] == 'l' {
            proof {
                assert(w.subrange(0, 4) =~= kw_null());
                assert(w.skip(4) =~= s@.skip(pos as int + 4));
            }
            return Some((JsonScalar::Null, pos + 4));
        } else {
            proof {
                if w.len() >= 4 {
                    assert(w.subrange(0, 4)[1] == s@[pos + 1]);
                    assert(w.subrange(0, 4)[2] == s@[pos + 2]);
                    assert(w.subrange(0, 4)[3] == s@[pos + 3]);
                    assert(w.subrange(0, 4) != kw_null());
                    if w.len() >= 5 {
                        assert(w.subrange(0, 5)[0] == 'n');
                        assert(w.subrange(0, 5) != kw_false());
                    }
                    assert(w.subrange(0, 4)[0] == 'n');
                    assert(w.subrange(0, 4) != kw_true());
                }
                assert(!is_digit('n'));
                assert(digit_count(w) == 0);
                assert(sp_scalar(w) is None);
            }
            return None;
        }
    } else if c == 't' {
        if s.len() - pos >= 4 && s[pos + 1] == 'r' && s[pos + 2] == 'u' && s[pos + 3] == 'e' {
            proof {
                assert(w.subrange(0, 4) =~= kw_true());
                assert(w.subrange(0, 4) != kw_null());
                assert(w.skip(4) =~= s@.skip(pos as int + 4));
            }
            return Some((JsonScalar::Bool(true), pos + 4));
        } else {
            proof {
                if w.len() >= 4 {
                    assert(w.subrange(0, 4)[0] == 't');
                    assert(w.subrange(0, 4)[1] == s@[pos + 1]);
                    assert(w.subrange(0, 4)[2] == s@[pos + 2]);
                    assert(w.subrange(0, 4)[3] == s@[pos + 3]);
                    assert(w.subrange(0, 4) != kw_null());
                    assert(w.subrange(0, 4) != kw_true());
                    if w.len() >= 5 {
                        assert(w.subrange(0, 5)[0] == 't');
                        assert(w.subrange(0, 5) != kw_false());
                    }
                }
                assert(!is_digit('t'));
                assert(digit_count(w) == 0);
                assert(sp_scalar(w) is None);
            }
            return None;
        }
    } else if c == 'f' {
        if s.len() - pos >= 5 && s[pos + 1] == 'a' && s[pos + 2] == 'l' && s[pos + 3] == 's'
            && s[pos + 4] == 'e' {
            proof {
                assert(w.subrange(0, 5) =~= kw_false());
                assert(w.subrange(0, 4)[0] == 'f');
                assert(w.subrange(0, 4) != kw_null());
                assert(w.subrange(0, 4) != kw_true());
                assert(w.skip(5) =~= s@.skip(pos as int + 5));
            }
            return Some((JsonScalar::Bool(false), pos + 5));
        } else {
            proof {
                if w.len() >= 4 {
                    assert(w.subrange(0, 4)[0] == 'f');
                    assert(w.subrange(0, 4) != kw_null());
                    assert(w.subrange(0, 4) != kw_true());
                }
                if w.len() >= 5 {
                    assert(w.subrange(0, 5)[1] == s@[pos + 1]);
                    assert(w.subrange(0, 5)[2] == s@[pos + 2]);
                    assert(w.subrange(0, 5)[3] == s@[pos + 3]);
                    assert(w.subrange(0, 5)[4] == s@[pos + 4]);
                    assert(w.subrange(0, 5) != kw_false());
                }
                assert(!is_digit('f'));
                assert(digit_count(w) == 0);
                assert(sp_scalar(w) is None);
            }
            return None;
        }
    } else {
        proof {
            if w.len() >= 4 {
                assert(w.subrange(0, 4)[0] == w[0]);
                assert(w.subrange(0, 4) != kw_null());
                assert(w.subrange(0, 4) != kw_true());
            }
            if w.len() >= 5 {
                assert(w.subrange(0, 5)[0] == w[0]);
                assert(w.subrange(0, 5) != kw_false());
            }
            assert(sp_scalar(w) == sp_int(w));
        }
        match ex_int(s, pos) {
            Some((iv, np)) => {
                return Some((JsonScalar::Int(iv), np));
            },
            None => {
                return None;
            },
        }
    }
}

fn ex_entry(s: &Vec<char>, pos: usize) -> (r: Option<((String, JsonScalar), usize)>)
    requires
        pos <= s@.len(),
    ensures
        match r {
            Some(p) => pos < p.1 <= s@.len() && sp_entry(s@.skip(pos as int)) == Some(
                ((p.0.0@, p.0.1@), s@.skip(p.1 as int)),
            ),
            None => sp_entry(s@.skip(pos as int)) is None,
        },
{
    let ghost w = s@.skip(pos as int);
    if pos >= s.len() {
        proof {
            assert(w.len() == 0);
        }
        return None;
    }
    proof {
        assert(w[0] == s@[pos as int]);
    }
    if s[pos] != '"' {
        return None;
    }
    proof {
        assert(w.drop_first() =~= s@.skip(pos as int + 1));
    }
    match ex_text_body(s, pos + 1) {
        None => {
            return None;
        },
        Some((kchars, p1)) => {
            let ghost rest1 = s@.skip(p1 as int);
            if p1 >= s.len() {
                proof {
                    assert(rest1.len() == 0);
                }
                return None;
            }
            proof {
                assert(rest1[0] == s@[p1 as int]);
            }
            if s[p1] != ':' {
                return None;
            }
            proof {
                assert(rest1.drop_first() =~= s@.skip(p1 as int + 1));
            }
            match ex_scalar(s, p1 + 1) {
                None => {
                    return None;
                },
                Some((scal, p2)) => {
                    let key = chars_to_string(&kchars);
                    return Some(((key, scal), p2));
                },
            }
        },
    }
}

pub open spec fn opt_prepend_entries(
    p: Seq<(Seq<char>, ScalarModel)>,
    o: Option<(Seq<(Seq<char>, ScalarModel)>, Seq<char>)>,
) -> Option<(Seq<(Seq<char>, ScalarModel)>, Seq<char>)> {
    match o {
        Some(q) => Some((p + q.0, q.1)),
        None => None,
    }
}

proof fn lemma_opt_prepend_entries_empty(o: Option<(Seq<(Seq<char>, ScalarModel)>, Seq<char>)>)
    ensures
        opt_prepend_entries(Seq::empty(), o) == o,
{
    match o {
        Some(q) => {
            assert(Seq::<(Seq<char>, ScalarModel)>::empty() + q.0 =~= q.0);
            assert((q.0, q.1) == o->Some_0);
        },
        None => {},
    }
}

proof fn lemma_opt_prepend_entries_push(
    a: Seq<(Seq<char>, ScalarModel)>,
    m: (Seq<char>, ScalarModel),
    o: Option<(Seq<(Seq<char>, ScalarModel)>, Seq<char>)>,
)
    ensures
        opt_prepend_entries(a, opt_prepend_entries(seq![m], o)) == opt_prepend_entries(
            a.push(m),
            o,
        ),
{
    match o {
        Some(q) => {
            assert(a + (seq![m] + q.0) =~= a.push(m) + q.0);
        },
        None => {},
    }
}

fn ex_entries(s: &Vec<char>, pos: usize) -> (r: Option<(Vec<(String, JsonScalar)>, usize)>)
    requires
        pos <= s@.len(),
    ensures
        match r {
            Some(p) => p.1 <= s@.len() && sp_entries(s@.skip(pos as int)) == Some(
                (obj_model(p.0@), s@.skip(p.1 as int)),
            ),
            None => sp_entries(s@.skip(pos as int)) is None,
        },
{
    let mut acc: Vec<(String, JsonScalar)> = Vec::new();
    let mut cur: usize = pos;
    proof {
        assert(obj_model(acc@) =~= Seq::<(Seq<char>, ScalarModel)>::empty());
        lemma_opt_prepend_entries_empty(sp_entries(s@.skip(pos as int)));
    }
    loop
        invariant
            pos <= cur <= s@.len(),
            opt_prepend_entries(obj_model(acc@), sp_entries(s@.skip(cur as int))) == sp_entries(
                s@.skip(pos as int),
            ),
        decreases s@.len() - cur,
    {
        let ghost w = s@.skip(cur as int);
        match ex_entry(s, cur) {
            None => {
                return None;
            },
            Some((e, p1)) => {
                let ghost em = (e.0@, e.1@);
                let ghost rest = s@.skip(p1 as int);
                proof {
                    assert(rest.len() < w.len());
                }
                if p1 < s.len() {
                    let c = s[p1];
                    proof {
                        assert(rest[0] == s@[p1 as int]);
                        assert(rest.drop_first() =~= s@.skip(p1 as int + 1));
                    }
                    if c == ',' {
                        proof {
                            assert(sp_entries(w) == opt_prepend_entries(
                                seq![em],
                                sp_entries(s@.skip(p1 as int + 1)),
                            ));
                            lemma_opt_prepend_entries_push(
                                obj_model(acc@),
                                em,
                                sp_entries(s@.skip(p1 as int + 1)),
                            );
                            assert(obj_model(acc@.push(e)) =~= obj_model(acc@).push(em));
                        }
                        acc.push(e);
                        cur = p1 + 1;
                    } else if c == '}' {
                        proof {
                            assert(sp_entries(w) == Some((seq![em], s@.skip(p1 as int + 1))));
                            assert(obj_model(acc@.push(e)) =~= obj_model(acc@).push(em));
                            assert(obj_model(acc@) + seq![em] =~= obj_model(acc@).push(em));
                        }
                        acc.push(e);
                        return Some((acc, p1 + 1));
                    } else {
                        proof {
                            assert(sp_entries(w) is None);
                        }
                        return None;
                    }
                } else {
                    proof {
                        assert(rest.len() == 0);
                        assert(sp_entries(w) is None);
                    }
                    return None;
                }
            },
        }
    }
}

/// The decoder half of the bridge: parse a whole document, or report that the
/// input is not canonical structured text. The result is exactly what the
/// specification parser `sp_doc` says.
pub fn parse_structured(s: &Vec<char>) -> (r: Option<Vec<(String, JsonScalar)>>)
    ensures
        match r {
            Some(o) => sp_doc(s@) == Some(obj_model(o@)),
            None => sp_doc(s@) is None,
        },
{
    if s.len() == 0 {
        return None;
    }
    if s[0] != '{' {
        return None;
    }
    proof {
        assert(s@.drop_first() =~= s@.skip(1));
        assert(s@.skip(1).len() == s@.len() - 1);
        if s@.len() >= 2 {
            assert(s@.skip(1)[0] == s@[1]);
        }
    }
    if s.len() >= 2 && s[1] == '}' {
        if s.len() == 2 {
            let out: Vec<(String, JsonScalar)> = Vec::new();
            proof {
                assert(obj_model(out@) =~= Seq::<(Seq<char>, ScalarModel)>::empty());
            }
            return Some(out);
        } else {
            return None;
        }
    }
    match ex_entries(s, 1) {
        Some((o, p)) => {
            if p == s.len() {
                proof {
                    assert(s@.skip(p as int).len() == 0);
                }
                return Some(o);
            } else {
                proof {
                    assert(s@.skip(p as int).len() != 0);
                }
                return None;
            }
        },
        None => {
            return None;
        },
    }
}

// ---------------------------------------------------------------------------
// Round trip: parsing the rendered form of a map gives back exactly the map.
// ---------------------------------------------------------------------------

proof fn lemma_text_round(t: Seq<char>, rest: Seq<char>)
    ensures
        sp_text_body(escape_chars(t) + seq!['"'] + rest) == Some((t, rest)),
    decreases t.len(),
{
    let e = escape_chars(t) + seq!['"'] + rest;
    if t.len() == 0 {
        assert(e =~= seq!['"'] + rest);
        assert(e[0] == '"');
        assert(e.drop_first() =~= rest);
        assert(t =~= Seq::<char>::empty());
    } else {
        let c = t[0];
        let t2 = t.drop_first();
        lemma_text_round(t2, rest);
        if c == '"' || c == '\\' {
            assert(e =~= seq!['\\', c] + (escape_chars(t2) + seq!['"'] + rest));
            assert(e[0] == '\\');
            assert(e[1] == c);
            assert(e.len() >= 2);
            assert(e.skip(2) =~= escape_chars(t2) + seq!['"'] + rest);
            assert(seq![c] + t2 =~= t);
        } else {
            assert(e =~= seq![c] + (escape_chars(t2) + seq!['"'] + rest));
            assert(e[0] == c);
            assert(e.drop_first() =~= escape_chars(t2) + seq!['"'] + rest);
            assert(seq![c] + t2 =~= t);
        }
    }
}

proof fn lemma_text_scalar_round(v: Seq<char>, rest: Seq<char>)
    ensures
        sp_scalar(render_text(v) + rest) == Some((ScalarModel::Text(v), rest)),
{
    let e = render_text(v) + rest;
    assert(e =~= seq!['"'] + (escape_chars(v) + seq!['"'] + rest));
    assert(e[0] == '"');
    assert(e.drop_first() =~= escape_chars(v) + seq!['"'] + rest);
    lemma_text_round(v, rest);
}

proof fn lemma_entry_round(k: Seq<char>, v: Seq<char>, rest: Seq<char>)
    ensures
        sp_entry(render_entry((k, v)) + rest) == Some(((k, ScalarModel::Text(v)), rest)),
        render_entry((k, v)).len() >= 5,
{
    let e = render_entry((k, v)) + rest;
    let rest1 = seq![':'] + render_text(v) + rest;
    assert(e =~= seq!['"'] + (escape_chars(k) + seq!['"'] + rest1));
    assert(e[0] == '"');
    assert(e.drop_first() =~= escape_chars(k) + seq!['"'] + rest1);
    lemma_text_round(k, rest1);
    assert(rest1[0] == ':');
    assert(rest1.drop_first() =~= render_text(v) + rest);
    lemma_text_scalar_round(v, rest);
}

proof fn lemma_entries_round(m: Seq<(Seq<char>, Seq<char>)>, rest: Seq<char>)
    requires
        m.len() > 0,
    ensures
        sp_entries(render_map_pairs(m) + seq!['}'] + rest) == Some((text_obj(m), rest)),
    decreases m.len(),
{
    let e = render_map_pairs(m) + seq!['}'] + rest;
    let k = m[0].0;
    let v = m[0].1;
    let m2 = m.drop_first();
    if m.len() == 1 {
        let rest0 = seq!['}'] + rest;
        assert(render_entries_rest(m2) =~= Seq::<char>::empty());
        assert(e =~= render_entry((k, v)) + rest0);
        lemma_entry_round(k, v, rest0);
        assert(rest0[0] == '}');
        assert(rest0.drop_first() =~= rest);
        assert(text_obj(m) =~= seq![(k, ScalarModel::Text(v))]);
        assert(sp_entries(e) == Some((text_obj(m), rest)));
    } else {
        let tail = render_map_pairs(m2) + seq!['}'] + rest;
        let rest0 = seq![','] + tail;
        assert(render_entries_rest(m2) =~= seq![','] + render_entry(m2[0])
            + render_entries_rest(m2.drop_first()));
        assert(e =~= render_entry((k, v)) + rest0);
        lemma_entry_round(k, v, rest0);
        assert(rest0[0] == ',');
        assert(rest0.len() < e.len());
        assert(rest0.drop_first() =~= tail);
        lemma_entries_round(m2, rest);
        assert(seq![(k, ScalarModel::Text(v))] + text_obj(m2) =~= text_obj(m));
        assert(sp_entries(e) == Some((text_obj(m), rest)));
    }
}

/// The round-trip law of the bridge: for every string map, parsing the
/// rendered structured text yields exactly that map, each value read back as
/// text. Together with the exact contracts of `render_parameter_map` and
/// `parse_structured`, typed extraction from a map is extraction from the map
/// itself, never from an artifact of the intermediate text.
pub proof fn lemma_parse_render_map(m: Seq<(Seq<char>, Seq<char>)>)
    ensures
        sp_doc(render_map(m)) == Some(text_obj(m)),
{
    let e = render_map(m);
    if m.len() == 0 {
        assert(e =~= seq!['{', '}']);
        assert(e[0] == '{');
        assert(e.drop_first() =~= seq!['}']);
        assert(e.drop_first()[0] == '}');
        assert(text_obj(m) =~= Seq::<(Seq<char>, ScalarModel)>::empty());
    } else {
        let body = render_map_pairs(m) + seq!['}'] + Seq::<char>::empty();
        assert(e[0] == '{');
        assert(e.drop_first() =~= body);
        lemma_entries_round(m, Seq::<char>::empty());
        assert(render_entry(m[0]).len() >= 5) by {
            lemma_entry_round(m[0].0, m[0].1, Seq::<char>::empty());
        }
        assert(body[0] == '"');
        assert(sp_doc(e) == Some(text_obj(m)));
    }
}

/// Value of a whole piece of text read as a decimal integer: an optional
/// minus sign, then digits only, within the range of `i64`.
pub open spec fn text_int_value(s: Seq<char>) -> Option<i64> {
    let neg = s.len() > 0 && s[0] == '-';
    let body = if neg {
        s.drop_first()
    } else {
        s
    };
    if body.len() == 0 || digit_count(body) != body.len() {
        None
    } else {
        let mag = digits_value(body);
        let v: int = if neg {
            -mag
        } else {
            mag
        };
        if i64::MIN <= v <= i64::MAX {
            Some(v as i64)
        } else {
            None
        }
    }
}

proof fn lemma_digit_count_le(s: Seq<char>)
    ensures
        0 <= digit_count(s) <= s.len(),
    decreases s.len(),
{
    if s.len() > 0 && is_digit(s[0]) {
        lemma_digit_count_le(s.drop_first());
    }
}

/// Read a whole string as a decimal integer, the reading the integer
/// coercion of the typed extractor uses on text values.
pub fn text_to_int(s: &String) -> (r: Option<i64>)
    ensures
        r == text_int_value(s@),
{
    let chars = crate::text::str_to_chars(s.as_str());
    let ghost whole = chars@;
    proof {
        assert(whole.skip(0) =~= s@);
    }
    let ghost neg = s@.len() > 0 && s@[0] == '-';
    let ghost body = if neg {
        s@.drop_first()
    } else {
        s@
    };
    proof {
        lemma_digit_count_le(body);
    }
    match ex_int(&chars, 0) {
        Some((v, p)) => {
            proof {
                assert(sp_int(s@) == Some((ScalarModel::Int(v), s@.skip(p as int))));
                assert(body.skip(digit_count(body)).len() == s@.skip(p as int).len());
            }
            if p == chars.len() {
                proof {
                    assert(digit_count(body) == body.len());
                    assert(body.subrange(0, body.len() as int) =~= body);
                }
                Some(v)
            } else {
                proof {
                    assert(digit_count(body) != body.len());
                }
                None
            }
        },
        None => {
            proof {
                assert(sp_int(s@) is None);
                if digit_count(body) == body.len() && body.len() > 0 {
                    assert(body.subrange(0, body.len() as int) =~= body);
                }
            }
            None
        },
    }
}

} // verus!
