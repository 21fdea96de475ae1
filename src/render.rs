//! Rendering a value back into JSON text.
use crate::grammar::{false_word, null_word, true_word};
use crate::text::{chars_of, push_char, push_text};
use crate::value::{entries_view, lemma_array_view, lemma_object_view, values_view, Json, JsonValue};
use vstd::prelude::*;

verus! {

/// The JSON text for one character inside a string.
pub open spec fn escape_char(c: char) -> Seq<char> {
    if c == '"' {
        seq!['\\', '"']
    } else if c == '\\' {
        seq!['\\', '\\']
    } else if c == '\n' {
        seq!['\\', 'n']
    } else if c == '\r' {
        seq!['\\', 'r']
    } else if c == '\t' {
        seq!['\\', 't']
    } else if c == '\u{8}' {
        seq!['\\', 'b']
    } else if c == '\u{c}' {
        seq!['\\', 'f']
    } else {
        seq![c]
    }
}

/// The escaped characters of a string, without quotes.
pub open spec fn escape_text(t: Seq<char>) -> Seq<char>
    decreases t.len(),
{
    if t.len() == 0 {
        Seq::empty()
    } else {
        escape_char(t[0]) + escape_text(t.subrange(1, t.len() as int))
    }
}

/// A string as a quoted JSON string.
pub open spec fn quoted(t: Seq<char>) -> Seq<char> {
    seq!['"'] + escape_text(t) + seq!['"']
}

/// The separator between elements and between members.
pub open spec fn comma() -> Seq<char> {
    seq![',', ' ']
}

/// The separator between a key and its value.
pub open spec fn colon() -> Seq<char> {
    seq![':', ' ']
}

/// The JSON text of a value.
pub open spec fn render_json(v: Json) -> Seq<char>
    decreases v,
{
    match v {
        Json::Null => null_word(),
        Json::Bool(b) => if b {
            true_word()
        } else {
            false_word()
        },
        Json::Num(t) => t,
        Json::Str(t) => quoted(t),
        Json::Arr(xs) => seq!['['] + render_items(xs) + seq![']'],
        Json::Obj(es) => seq!['{'] + render_members(es) + seq!['}'],
    }
}

/// Array elements, separated by `, `.
pub open spec fn render_items(xs: Seq<Json>) -> Seq<char>
    decreases xs,
{
    if xs.len() == 0 {
        Seq::empty()
    } else if xs.len() == 1 {
        render_json(xs[0])
    } else {
        render_json(xs[0]) + comma() + render_items(xs.subrange(1, xs.len() as int))
    }
}

/// Object members as `"key": value`, separated by `, `.
pub open spec fn render_members(es: Seq<(Seq<char>, Json)>) -> Seq<char>
    decreases es,
{
    if es.len() == 0 {
        Seq::empty()
    } else if es.len() == 1 {
        quoted(es[0].0) + colon() + render_json(es[0].1)
    } else {
        quoted(es[0].0) + colon() + render_json(es[0].1) + comma() + render_members(
            es.subrange(1, es.len() as int),
        )
    }
}

proof fn lemma_escape_push(t: Seq<char>, c: char)
    ensures
        escape_text(t.push(c)) == escape_text(t) + escape_char(c),
    decreases t.len(),
{
    if t.len() == 0 {
        assert(t.push(c).subrange(1, 1) =~= Seq::<char>::empty());
        assert(escape_text(Seq::<char>::empty()) == Seq::<char>::empty());
        assert(escape_text(t.push(c)) == escape_char(c) + Seq::<char>::empty());
        assert(escape_text(t.push(c)) =~= escape_text(t) + escape_char(c));
    } else {
        let r = t.subrange(1, t.len() as int);
        lemma_escape_push(r, c);
        assert(t.push(c).subrange(1, t.len() + 1int) =~= r.push(c));
        assert(escape_text(t.push(c)) =~= escape_text(t) + escape_char(c));
    }
}

proof fn lemma_items_push(xs: Seq<Json>, x: Json)
    ensures
        render_items(xs.push(x)) == (if xs.len() == 0 {
            render_json(x)
        } else {
            render_items(xs) + comma() + render_json(x)
        }),
    decreases xs.len(),
{
    if xs.len() == 0 {
    } else if xs.len() == 1 {
        assert(xs.push(x).subrange(1, 2) =~= seq![x]);
        assert(render_items(seq![x]) == render_json(x));
    } else {
        let r = xs.subrange(1, xs.len() as int);
        lemma_items_push(r, x);
        assert(xs.push(x).subrange(1, xs.len() + 1int) =~= r.push(x));
        assert(render_items(xs.push(x)) =~= render_items(xs) + comma() + render_json(x));
    }
}

proof fn lemma_members_push(es: Seq<(Seq<char>, Json)>, e: (Seq<char>, Json))
    ensures
        render_members(es.push(e)) == (if es.len() == 0 {
            quoted(e.0) + colon() + render_json(e.1)
        } else {
            render_members(es) + comma() + (quoted(e.0) + colon() + render_json(e.1))
        }),
    decreases es.len(),
{
    if es.len() == 0 {
    } else if es.len() == 1 {
        assert(es.push(e).subrange(1, 2) =~= seq![e]);
        assert(render_members(seq![e]) == quoted(e.0) + colon() + render_json(e.1));
        assert(render_members(es.push(e)) =~= render_members(es) + comma() + (quoted(e.0) + colon()
            + render_json(e.1)));
    } else {
        let r = es.subrange(1, es.len() as int);
        lemma_members_push(r, e);
        assert(es.push(e).subrange(1, es.len() + 1int) =~= r.push(e));
        assert(render_members(es.push(e)) =~= render_members(es) + comma() + (quoted(e.0) + colon()
            + render_json(e.1)));
    }
}

/// Appends `t` as a quoted JSON string.
fn render_string_into(t: &String, out: &mut String)
    ensures
        final(out)@ == old(out)@ + quoted(t@),
{
    let cs = chars_of(t.as_str());
    push_char(out, '"');
    let mut i: usize = 0;
    while i < cs.len()
        invariant
            i <= cs.len(),
            cs@ == t@,
            out@ == old(out)@ + seq!['"'] + escape_text(cs@.subrange(0, i as int)),
        decreases cs.len() - i,
    {
        let c = cs[i];
        proof {
            lemma_escape_push(cs@.subrange(0, i as int), c);
            assert(cs@.subrange(0, i as int).push(c) =~= cs@.subrange(0, i + 1));
        }
        if c == '"' {
            push_char(out, '\\');
            push_char(out, '"');
        } else if c == '\\' {
            push_char(out, '\\');
            push_char(out, '\\');
        } else if c == '\n' {
            push_char(out, '\\');
            push_char(out, 'n');
        } else if c == '\r' {
            push_char(out, '\\');
            push_char(out, 'r');
        } else if c == '\t' {
            push_char(out, '\\');
            push_char(out, 't');
        } else if c == '\u{8}' {
            push_char(out, '\\');
            push_char(out, 'b');
        } else if c == '\u{c}' {
            push_char(out, '\\');
            push_char(out, 'f');
        } else {
            push_char(out, c);
        }
        i = i + 1;
        assert(out@ =~= old(out)@ + seq!['"'] + escape_text(cs@.subrange(0, i as int)));
    }
    push_char(out, '"');
    assert(cs@.subrange(0, cs.len() as int) =~= cs@);
    assert(out@ =~= old(out)@ + quoted(t@));
}

impl JsonValue {
    /// Appends the JSON text of this value.
    pub fn render_into(&self, out: &mut String)
        ensures
            final(out)@ == old(out)@ + render_json(self@),
        decreases self,
    {
        match self {
            JsonValue::Null => {
                proof {
                    reveal_strlit("null");
                }
                push_text(out, "null");
                assert("null"@ =~= null_word());
            },
            JsonValue::Boolean(b) => {
                if *b {
                    proof {
                        reveal_strlit("true");
                    }
                    push_text(out, "true");
                    assert("true"@ =~= true_word());
                } else {
                    proof {
                        reveal_strlit("false");
                    }
                    push_text(out, "false");
                    assert("false"@ =~= false_word());
                }
            },
            JsonValue::Number(t) => {
                push_text(out, t.as_str());
            },
            JsonValue::String(t) => {
                render_string_into(t, out);
            },
            JsonValue::Array(a) => {
                proof {
                    lemma_array_view(*a);
                }
                let ghost xs = values_view(a@);
                push_char(out, '[');
                let mut i: usize = 0;
                while i < a.len()
                    invariant
                        i <= a.len(),
                        xs == values_view(a@),
                        *self == JsonValue::Array(*a),
                        out@ == old(out)@ + seq!['['] + render_items(xs.subrange(0, i as int)),
                    decreases a.len() - i,
                {
                    proof {
                        lemma_items_push(xs.subrange(0, i as int), xs[i as int]);
                        assert(xs.subrange(0, i as int).push(xs[i as int]) =~= xs.subrange(0, i + 1));
                    }
                    if i > 0 {
                        push_char(out, ',');
                        push_char(out, ' ');
                    }
                    proof {
                        vstd::std_specs::vec::axiom_vec_index_decreases(*a, i as int);
                        assert(decreases_to!(*self => (*self)->Array_0));
                    }
                    a[i].render_into(out);
                    i = i + 1;
                    assert(out@ =~= old(out)@ + seq!['['] + render_items(xs.subrange(0, i as int)));
                }
                push_char(out, ']');
                assert(xs.subrange(0, a.len() as int) =~= xs);
                assert(out@ =~= old(out)@ + render_json(self@));
            },
            JsonValue::Object(o) => {
                proof {
                    lemma_object_view(*o);
                }
                let ghost es = entries_view(o@);
                push_char(out, '{');
                let mut i: usize = 0;
                while i < o.len()
                    invariant
                        i <= o.len(),
                        es == entries_view(o@),
                        *self == JsonValue::Object(*o),
                        out@ == old(out)@ + seq!['{'] + render_members(es.subrange(0, i as int)),
                    decreases o.len() - i,
                {
                    proof {
                        lemma_members_push(es.subrange(0, i as int), es[i as int]);
                        assert(es.subrange(0, i as int).push(es[i as int]) =~= es.subrange(0, i + 1));
                    }
                    if i > 0 {
                        push_char(out, ',');
                        push_char(out, ' ');
                    }
                    render_string_into(&o[i].0, out);
                    push_char(out, ':');
                    push_char(out, ' ');
                    proof {
                        vstd::std_specs::vec::axiom_vec_index_decreases(*o, i as int);
                        assert(decreases_to!(*self => (*self)->Object_0));
                        assert(decreases_to!(o[i as int] => o[i as int].1));
                    }
                    o[i].1.render_into(out);
                    i = i + 1;
                    assert(out@ =~= old(out)@ + seq!['{'] + render_members(es.subrange(0, i as int)));
                }
                push_char(out, '}');
                assert(es.subrange(0, o.len() as int) =~= es);
                assert(out@ =~= old(out)@ + render_json(self@));
            },
        }
    }

    /// The JSON text of this value.
    pub fn render(&self) -> (r: String)
        ensures
            r@ == render_json(self@),
    {
        let mut out = String::new();
        self.render_into(&mut out);
        assert(out@ =~= render_json(self@));
        out
    }
}

} // verus!
