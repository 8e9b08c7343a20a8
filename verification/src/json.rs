//! Resources as JSON: the notation with property URLs as keys, and the
//! pieces that the notations with short names as keys are made of.

use vstd::prelude::*;
use vstd::string::StringExecFns;

use crate::decimal::{int_text, push_i64};
use crate::model::resource_views;
use crate::resources::{propval_views, PropVal, Resource, ResourceView};
use crate::text::{push_char, to_chars, views};
use crate::values::{false_text, true_text, value_text, Value, ValueView};

verus! {

/// The sign for a number below sixteen in a notation to the base of
/// sixteen.
pub open spec fn hex_digit(n: int) -> char {
    if n < 10 {
        (('0' as u8 + n) as u8) as char
    } else {
        (('a' as u8 + n - 10) as u8) as char
    }
}

/// A character as it stands in a JSON string: a backslash before a double
/// quote and before a backslash, a letter after a backslash for a line
/// break or a tab, and the code after a backslash and a `u` for any other
/// control character.
pub open spec fn json_char(c: char) -> Seq<char> {
    if c == '"' {
        seq!['\\', '"']
    } else if c == '\\' {
        seq!['\\', '\\']
    } else if c == '\n' {
        seq!['\\', 'n']
    } else if c == '\r' {
        seq!['\\', 'r']
    } else if c == '\t' {
        seq!['\\', 't']
    } else if (c as int) < 32 {
        seq!['\\', 'u', '0', '0', hex_digit(c as int / 16), hex_digit(c as int % 16)]
    } else {
        seq![c]
    }
}

/// A text as it stands between the double quotes of a JSON string.
pub open spec fn json_escaped(s: Seq<char>) -> Seq<char>
    decreases s.len(),
{
    if s.len() == 0 {
        Seq::empty()
    } else {
        json_escaped(s.drop_last()) + json_char(s.last())
    }
}

/// A text as a JSON string.
pub open spec fn json_string(s: Seq<char>) -> Seq<char> {
    seq!['"'] + json_escaped(s) + seq!['"']
}

/// Texts as JSON strings with commas between them.
pub open spec fn json_strings(items: Seq<Seq<char>>) -> Seq<char>
    decreases items.len(),
{
    if items.len() == 0 {
        Seq::empty()
    } else if items.len() == 1 {
        json_string(items[0])
    } else {
        json_strings(items.drop_last()) + seq![','] + json_string(items.last())
    }
}

/// A value as JSON: a truth value and a whole number as they are, an
/// array as an array of strings, and anything else as a string. A float
/// is the string of its literal.
pub open spec fn json_value(v: ValueView) -> Seq<char> {
    match v {
        ValueView::Boolean(b) => if b {
            true_text()
        } else {
            false_text()
        },
        ValueView::Integer(i) => int_text(i as int),
        ValueView::Timestamp(i) => int_text(i as int),
        ValueView::ResourceArray(items) => seq!['['] + json_strings(items) + seq![']'],
        _ => json_string(value_text(v)),
    }
}

/// Entries as members of a JSON object, each after a comma: the key as a
/// string, a colon, the value.
pub open spec fn json_members(keys: Seq<Seq<char>>, values: Seq<ValueView>) -> Seq<char>
    decreases keys.len(),
{
    if keys.len() == 0 || keys.len() != values.len() {
        Seq::empty()
    } else {
        json_members(keys.drop_last(), values.drop_last()) + seq![','] + json_string(keys.last())
            + seq![':'] + json_value(values.last())
    }
}

/// The key under which a JSON object holds the subject.
pub open spec fn id_key() -> Seq<char> {
    seq!['@', 'i', 'd']
}

/// The properties of entries, in order.
pub open spec fn entry_keys(pvs: Seq<(Seq<char>, ValueView)>) -> Seq<Seq<char>> {
    Seq::new(pvs.len(), |i: int| pvs[i].0)
}

/// The values of entries, in order.
pub open spec fn entry_values(pvs: Seq<(Seq<char>, ValueView)>) -> Seq<ValueView> {
    Seq::new(pvs.len(), |i: int| pvs[i].1)
}

/// A resource as a JSON object with property URLs as keys: the subject
/// under `@id`, then each entry in order.
pub open spec fn json_ad(r: ResourceView) -> Seq<char> {
    seq!['{'] + json_string(id_key()) + seq![':'] + json_string(r.subject) + json_members(
        entry_keys(r.propvals),
        entry_values(r.propvals),
    ) + seq!['}']
}

/// Resources as JSON objects with commas between them.
pub open spec fn json_ad_objects(rs: Seq<ResourceView>) -> Seq<char>
    decreases rs.len(),
{
    if rs.len() == 0 {
        Seq::empty()
    } else if rs.len() == 1 {
        json_ad(rs[0])
    } else {
        json_ad_objects(rs.drop_last()) + seq![','] + json_ad(rs.last())
    }
}

/// Resources as a JSON array of objects with property URLs as keys.
pub open spec fn json_ad_array(rs: Seq<ResourceView>) -> Seq<char> {
    seq!['['] + json_ad_objects(rs) + seq![']']
}

/// Keys and texts as members of a JSON object with commas between them:
/// each key as a string, a colon, the text as a string.
pub open spec fn json_pairs(keys: Seq<Seq<char>>, texts: Seq<Seq<char>>) -> Seq<char>
    decreases keys.len(),
{
    if keys.len() == 0 || keys.len() != texts.len() {
        Seq::empty()
    } else if keys.len() == 1 {
        json_string(keys[0]) + seq![':'] + json_string(texts[0])
    } else {
        json_pairs(keys.drop_last(), texts.drop_last()) + seq![','] + json_string(keys.last())
            + seq![':'] + json_string(texts.last())
    }
}

/// The key under which a JSON-LD object says what its keys stand for.
pub open spec fn context_key() -> Seq<char> {
    seq!['@', 'c', 'o', 'n', 't', 'e', 'x', 't']
}

/// A resource as a JSON object with the names `names` as the keys of its
/// entries: the subject under `@id`, then each entry in order.
pub open spec fn json_named_body(r: ResourceView, names: Seq<Seq<char>>) -> Seq<char> {
    seq!['{'] + json_string(id_key()) + seq![':'] + json_string(r.subject) + json_members(
        names,
        entry_values(r.propvals),
    )
}

/// A resource as a JSON object with names as keys.
pub open spec fn json_named(r: ResourceView, names: Seq<Seq<char>>) -> Seq<char> {
    json_named_body(r, names) + seq!['}']
}

/// A resource as a JSON-LD object: as a JSON object with names as keys,
/// with a context at its end that gives the property for each name.
pub open spec fn json_ld(r: ResourceView, names: Seq<Seq<char>>) -> Seq<char> {
    json_named_body(r, names) + seq![','] + json_string(context_key()) + seq![':', '{']
        + json_pairs(names, entry_keys(r.propvals)) + seq!['}', '}']
}

/// The sign for a number below sixteen.
fn hex_char(n: u8) -> (r: char)
    requires
        n < 16,
    ensures
        r == hex_digit(n as int),
{
    if n < 10 {
        (48u8 + n) as char
    } else {
        (97u8 + (n - 10)) as char
    }
}

/// The code of a control character; none for any other character.
fn control_code(c: char) -> (r: Option<u8>)
    ensures
        match r {
            Some(code) => (c as int) < 32 && code as int == c as int,
            None => (c as int) >= 32,
        },
{
    if c <= '\x1f' {
        let wide: u64 = c as u64;
        Some(wide as u8)
    } else {
        None
    }
}

/// Writes `text` as a JSON string at the end of `out`.
pub fn push_json_string(out: &mut String, text: &str)
    ensures
        final(out)@ == old(out)@ + json_string(text@),
{
    proof {
        reveal_strlit("\"");
    }
    out.append("\"");
    let ghost start = out@;
    let chars = to_chars(text);
    let mut i: usize = 0;
    assert(chars@.take(0) =~= Seq::<char>::empty());
    assert(out@ =~= start + json_escaped(chars@.take(0)));
    while i < chars.len()
        invariant
            i <= chars@.len(),
            chars@ == text@,
            out@ == start + json_escaped(chars@.take(i as int)),
        decreases chars@.len() - i,
    {
        let c = chars[i];
        let ghost before = out@;
        proof {
            reveal_strlit("\\\"");
            reveal_strlit("\\\\");
            reveal_strlit("\\n");
            reveal_strlit("\\r");
            reveal_strlit("\\t");
            reveal_strlit("\\u00");
            assert(chars@.take(i + 1).drop_last() =~= chars@.take(i as int));
            assert(chars@.take(i + 1).last() == c);
        }
        if c == '"' {
            out.append("\\\"");
        } else if c == '\\' {
            out.append("\\\\");
        } else if c == '\n' {
            out.append("\\n");
        } else if c == '\r' {
            out.append("\\r");
        } else if c == '\t' {
            out.append("\\t");
        } else if let Some(code) = control_code(c) {
            out.append("\\u00");
            let ghost marked = out@;
            assert(marked =~= before + seq!['\\', 'u', '0', '0']);
            push_char(out, hex_char(code / 16));
            push_char(out, hex_char(code % 16));
            assert(out@ =~= before + seq![
                '\\',
                'u',
                '0',
                '0',
                hex_digit(c as int / 16),
                hex_digit(c as int % 16),
            ]);
        } else {
            push_char(out, c);
        }
        assert(out@ =~= before + json_char(c));
        assert(out@ =~= start + json_escaped(chars@.take(i + 1)));
        i = i + 1;
    }
    assert(chars@.take(i as int) =~= chars@);
    proof {
        reveal_strlit("\"");
    }
    out.append("\"");
    assert(out@ =~= old(out)@ + json_string(text@));
}

/// Writes a value as JSON at the end of `out`.
pub fn push_json_value(out: &mut String, value: &Value)
    ensures
        final(out)@ == old(out)@ + json_value(value@),
{
    proof {
        reveal_strlit("true");
        reveal_strlit("false");
        reveal_strlit("[");
        reveal_strlit("]");
        assert("true"@ =~= true_text());
        assert("false"@ =~= false_text());
    }
    match value {
        Value::Boolean(b) => {
            if *b {
                out.append("true");
            } else {
                out.append("false");
            }
        },
        Value::Integer(i) => {
            push_i64(out, *i);
        },
        Value::Timestamp(i) => {
            push_i64(out, *i);
        },
        Value::ResourceArray(items) => {
            out.append("[");
            let ghost start = out@;
            let ghost all = views(items@);
            let mut i: usize = 0;
            assert(all.take(0) =~= Seq::<Seq<char>>::empty());
            assert(out@ =~= start + json_strings(all.take(0)));
            while i < items.len()
                invariant
                    i <= items@.len(),
                    all == views(items@),
                    out@ == start + json_strings(all.take(i as int)),
                decreases items@.len() - i,
            {
                proof {
                    reveal_strlit(",");
                    assert(all.take(i + 1).drop_last() =~= all.take(i as int));
                    assert(all.take(i + 1).last() == items@[i as int]@);
                    if i == 0 {
                        assert(all.take(1)[0] == items@[0]@);
                    }
                }
                if i > 0 {
                    out.append(",");
                }
                push_json_string(out, items[i].as_str());
                assert(out@ =~= start + json_strings(all.take(i + 1)));
                i = i + 1;
            }
            assert(all.take(i as int) =~= all);
            out.append("]");
            assert(out@ =~= old(out)@ + json_value(value@));
        },
        other => {
            let text = other.to_string();
            push_json_string(out, text.as_str());
        },
    }
}

/// Writes a member of a JSON object at the end of `out`, after a comma.
pub fn push_json_member(out: &mut String, key: &str, value: &Value)
    ensures
        final(out)@ == old(out)@ + seq![','] + json_string(key@) + seq![':'] + json_value(value@),
{
    proof {
        reveal_strlit(",");
        reveal_strlit(":");
    }
    out.append(",");
    push_json_string(out, key);
    out.append(":");
    push_json_value(out, value);
    assert(out@ =~= old(out)@ + seq![','] + json_string(key@) + seq![':'] + json_value(value@));
}

/// Writes a resource as a JSON object with property URLs as keys at the
/// end of `out`.
pub fn push_json_ad(out: &mut String, resource: &Resource)
    ensures
        final(out)@ == old(out)@ + json_ad(resource@),
{
    proof {
        reveal_strlit("{");
        reveal_strlit("}");
        reveal_strlit(":");
        reveal_strlit("@id");
        assert("@id"@ =~= id_key());
    }
    out.append("{");
    push_json_string(out, "@id");
    out.append(":");
    push_json_string(out, resource.get_subject().as_str());
    let ghost start = out@;
    assert(start =~= old(out)@ + (seq!['{'] + json_string(id_key()) + seq![':'] + json_string(
        resource@.subject,
    )));
    let propvals = resource.get_propvals();
    let ghost pvs = resource@.propvals;
    let ghost keys = entry_keys(pvs);
    let ghost values = entry_values(pvs);
    let mut i: usize = 0;
    assert(keys.take(0) =~= Seq::<Seq<char>>::empty());
    assert(out@ =~= start + json_members(keys.take(0), values.take(0)));
    while i < propvals.len()
        invariant
            i <= propvals@.len(),
            pvs == propval_views(propvals@),
            keys == entry_keys(pvs),
            values == entry_values(pvs),
            out@ == start + json_members(keys.take(i as int), values.take(i as int)),
        decreases propvals@.len() - i,
    {
        proof {
            assert(keys.take(i + 1).drop_last() =~= keys.take(i as int));
            assert(values.take(i + 1).drop_last() =~= values.take(i as int));
            assert(keys.take(i + 1).last() == propvals@[i as int].property@);
            assert(values.take(i + 1).last() == propvals@[i as int].value@);
        }
        push_json_member(out, propvals[i].property.as_str(), &propvals[i].value);
        assert(out@ =~= start + json_members(keys.take(i + 1), values.take(i + 1)));
        i = i + 1;
    }
    assert(keys.take(i as int) =~= keys);
    assert(values.take(i as int) =~= values);
    out.append("}");
    assert(out@ =~= old(out)@ + json_ad(resource@));
}

/// Writes a resource as a JSON object with `names` as the keys of its
/// entries, as JSON-LD where `with_context` is set.
pub(crate) fn resource_to_json_named(resource: &Resource, names: &Vec<String>, with_context: bool)
    -> (r: String)
    requires
        names@.len() == resource@.propvals.len(),
    ensures
        r@ == if with_context {
            json_ld(resource@, views(names@))
        } else {
            json_named(resource@, views(names@))
        },
{
    proof {
        reveal_strlit("{");
        reveal_strlit("}");
        reveal_strlit(":");
        reveal_strlit(",");
        reveal_strlit(":{");
        reveal_strlit("}}");
        reveal_strlit("@id");
        reveal_strlit("@context");
        assert("@id"@ =~= id_key());
        assert("@context"@ =~= context_key());
    }
    let ghost all = views(names@);
    let propvals = resource.get_propvals();
    let ghost pvs = resource@.propvals;
    let ghost keys = entry_keys(pvs);
    let ghost values = entry_values(pvs);
    let mut out = String::new();
    out.append("{");
    push_json_string(&mut out, "@id");
    out.append(":");
    push_json_string(&mut out, resource.get_subject().as_str());
    let ghost start = out@;
    assert(start =~= seq!['{'] + json_string(id_key()) + seq![':'] + json_string(
        resource@.subject,
    ));
    let mut i: usize = 0;
    assert(all.take(0) =~= Seq::<Seq<char>>::empty());
    assert(out@ =~= start + json_members(all.take(0), values.take(0)));
    while i < propvals.len()
        invariant
            i <= propvals@.len(),
            names@.len() == propvals@.len(),
            all == views(names@),
            pvs == propval_views(propvals@),
            values == entry_values(pvs),
            out@ == start + json_members(all.take(i as int), values.take(i as int)),
        decreases propvals@.len() - i,
    {
        proof {
            assert(all.take(i + 1).drop_last() =~= all.take(i as int));
            assert(values.take(i + 1).drop_last() =~= values.take(i as int));
            assert(all.take(i + 1).last() == names@[i as int]@);
            assert(values.take(i + 1).last() == propvals@[i as int].value@);
        }
        push_json_member(&mut out, names[i].as_str(), &propvals[i].value);
        assert(out@ =~= start + json_members(all.take(i + 1), values.take(i + 1)));
        i = i + 1;
    }
    assert(all.take(i as int) =~= all);
    assert(values.take(i as int) =~= values);
    assert(out@ =~= json_named_body(resource@, all));
    if with_context {
        out.append(",");
        push_json_string(&mut out, "@context");
        out.append(":{");
        let ghost head = out@;
        assert(head =~= json_named_body(resource@, all) + seq![','] + json_string(context_key())
            + seq![':', '{']);
        let mut j: usize = 0;
        assert(keys.take(0) =~= Seq::<Seq<char>>::empty());
        assert(out@ =~= head + json_pairs(all.take(0), keys.take(0)));
        while j < propvals.len()
            invariant
                j <= propvals@.len(),
                names@.len() == propvals@.len(),
                all == views(names@),
                pvs == propval_views(propvals@),
                keys == entry_keys(pvs),
                out@ == head + json_pairs(all.take(j as int), keys.take(j as int)),
            decreases propvals@.len() - j,
        {
            proof {
                reveal_strlit(",");
                reveal_strlit(":");
                assert(all.take(j + 1).drop_last() =~= all.take(j as int));
                assert(keys.take(j + 1).drop_last() =~= keys.take(j as int));
                assert(all.take(j + 1).last() == names@[j as int]@);
                assert(keys.take(j + 1).last() == propvals@[j as int].property@);
                if j == 0 {
                    assert(all.take(1)[0] == names@[0]@);
                    assert(keys.take(1)[0] == propvals@[0].property@);
                }
            }
            if j > 0 {
                out.append(",");
            }
            push_json_string(&mut out, names[j].as_str());
            out.append(":");
            push_json_string(&mut out, propvals[j].property.as_str());
            assert(out@ =~= head + json_pairs(all.take(j + 1), keys.take(j + 1)));
            j = j + 1;
        }
        assert(all.take(j as int) =~= all);
        assert(keys.take(j as int) =~= keys);
        out.append("}}");
        assert(out@ =~= json_ld(resource@, all));
    } else {
        out.append("}");
        assert(out@ =~= json_named(resource@, all));
    }
    out
}

/// Writes resources as a JSON array of objects with property URLs as
/// keys.
pub fn resources_to_json_ad(resources: &Vec<Resource>) -> (r: String)
    ensures
        r@ == json_ad_array(resource_views(resources@)),
{
    proof {
        reveal_strlit("[");
        reveal_strlit("]");
    }
    let ghost rs = resource_views(resources@);
    let mut out = String::new();
    out.append("[");
    let mut i: usize = 0;
    assert(rs.take(0) =~= Seq::<ResourceView>::empty());
    assert(out@ =~= seq!['['] + json_ad_objects(rs.take(0)));
    while i < resources.len()
        invariant
            i <= resources@.len(),
            rs == resource_views(resources@),
            out@ == seq!['['] + json_ad_objects(rs.take(i as int)),
        decreases resources@.len() - i,
    {
        proof {
            reveal_strlit(",");
            assert(rs.take(i + 1).drop_last() =~= rs.take(i as int));
            assert(rs.take(i + 1).last() == resources@[i as int]@);
            if i == 0 {
                assert(rs.take(1)[0] == resources@[0]@);
            }
        }
        if i > 0 {
            out.append(",");
        }
        push_json_ad(&mut out, &resources[i]);
        assert(out@ =~= seq!['['] + json_ad_objects(rs.take(i + 1)));
        i = i + 1;
    }
    assert(rs.take(i as int) =~= rs);
    out.append("]");
    out
}

/// A resource as a JSON object with property URLs as keys.
pub fn resource_to_json_ad(resource: &Resource) -> (r: String)
    ensures
        r@ == json_ad(resource@),
{
    let mut out = String::new();
    push_json_ad(&mut out, resource);
    assert(out@ =~= json_ad(resource@));
    out
}

} // verus!
