//! Resources as text, and back: how a store is written to a file and
//! read from it. Each resource is a record of four fields that names its
//! subject and its head, followed by one record of four fields for each
//! of its entries: the property, the datatype and the text of the value.

use vstd::prelude::*;

use vstd::string::StringExecFns;

use crate::atoms::{atom_views, Atom, AtomView};
use crate::commit::fields_text;
use crate::fields::{lemma_fields_round_trip, read_fields, text_fields, write_fields};
use crate::model::resource_views;
use crate::resources::{
    distinct_props, has_prop, prop_index, propval_views, upsert, Resource, ResourceView,
};
use crate::text::{push_char, str_eq, to_chars, views};
use crate::urls;
use crate::values::{
    datatype_of, datatype_of_url, datatype_url, lemma_value_round_trip, match_datatype,
    text_value, valid_value, value_text, DataType, Value, ValueView,
};

verus! {

/// The mark of a record that starts a resource.
pub open spec fn tag_resource() -> Seq<char> {
    seq!['R']
}

/// The mark of a record that holds an entry.
pub open spec fn tag_atom() -> Seq<char> {
    seq!['A']
}

/// A yes or a no as a field.
pub open spec fn flag(b: bool) -> Seq<char> {
    if b {
        seq!['1']
    } else {
        seq!['0']
    }
}

/// The record that starts a resource: the mark, the subject, whether
/// there is a head, and the head.
pub open spec fn header_fields(r: ResourceView) -> Seq<Seq<char>> {
    seq![tag_resource(), r.subject, flag(r.head is Some), match r.head {
        Some(h) => h,
        None => Seq::empty(),
    }]
}

/// The record of an entry: the mark, the property, the URL of the
/// datatype and the text of the value.
pub open spec fn atom_fields(e: (Seq<char>, ValueView)) -> Seq<Seq<char>> {
    seq![tag_atom(), e.0, datatype_url(datatype_of(e.1)), value_text(e.1)]
}

/// The records of entries, one after the other.
pub open spec fn entries_fields(pvs: Seq<(Seq<char>, ValueView)>) -> Seq<Seq<char>>
    decreases pvs.len(),
{
    if pvs.len() == 0 {
        Seq::empty()
    } else {
        entries_fields(pvs.drop_last()) + atom_fields(pvs.last())
    }
}

/// The records of a resource.
pub open spec fn resource_fields(r: ResourceView) -> Seq<Seq<char>> {
    header_fields(r) + entries_fields(r.propvals)
}

/// The records of resources, one after the other.
pub open spec fn resources_fields(rs: Seq<ResourceView>) -> Seq<Seq<char>>
    decreases rs.len(),
{
    if rs.len() == 0 {
        Seq::empty()
    } else {
        resources_fields(rs.drop_last()) + resource_fields(rs.last())
    }
}

/// Resources as text.
pub open spec fn resources_text(rs: Seq<ResourceView>) -> Seq<char> {
    fields_text(resources_fields(rs))
}

/// The head that two fields of a record give: with a yes, the text of the
/// second; with a no, none, and the second is empty.
pub open spec fn head_from(mark: Seq<char>, head: Seq<char>) -> Option<Option<Seq<char>>> {
    if mark == flag(true) {
        Some(Some(head))
    } else if mark == flag(false) && head.len() == 0 {
        Some(None)
    } else {
        None
    }
}

/// A resource with one more entry.
pub open spec fn with_entry(r: ResourceView, p: Seq<char>, v: ValueView) -> ResourceView {
    ResourceView { propvals: upsert(r.propvals, p, v), ..r }
}

/// The resources that the records from `i` on make, added to `acc`. A
/// record that starts a resource adds one without entries. A record of an
/// entry needs a resource before it, a datatype that is known and a text
/// that the datatype admits, and gives the last resource that entry.
pub open spec fn records_from(f: Seq<Seq<char>>, i: int, acc: Seq<ResourceView>) -> Option<
    Seq<ResourceView>,
>
    decreases f.len() - i,
{
    if i < 0 || i > f.len() {
        None
    } else if i == f.len() {
        Some(acc)
    } else if i + 4 > f.len() {
        None
    } else if f[i] == tag_resource() {
        match head_from(f[i + 2], f[i + 3]) {
            None => None,
            Some(head) => records_from(
                f,
                i + 4,
                acc.push(ResourceView { subject: f[i + 1], propvals: Seq::empty(), head }),
            ),
        }
    } else if f[i] == tag_atom() && acc.len() > 0 {
        match datatype_of_url(f[i + 2]) {
            None => None,
            Some(d) => match text_value(f[i + 3], d) {
                None => None,
                Some(v) => records_from(
                    f,
                    i + 4,
                    acc.update(acc.len() - 1, with_entry(acc.last(), f[i + 1], v)),
                ),
            },
        }
    } else {
        None
    }
}

/// The resources that a text holds, where it is the text of resources.
pub open spec fn text_resources(s: Seq<char>) -> Option<Seq<ResourceView>> {
    match text_fields(s) {
        None => None,
        Some(f) => records_from(f, 0, Seq::empty()),
    }
}

/// Whether a resource can be written and read back as it is: no property
/// occurs twice in it, and each value holds what its datatype admits.
pub open spec fn writable(r: ResourceView) -> bool {
    &&& distinct_props(r.propvals)
    &&& forall|j: int| 0 <= j < r.propvals.len() ==> valid_value((#[trigger] r.propvals[j]).1)
}

/// The URL of a datatype names that datatype.
pub proof fn lemma_datatype_url_round_trip(d: DataType)
    ensures
        datatype_of_url(datatype_url(d)) == Some(d),
{
    reveal_strlit("https://atomicdata.dev/datatypes/atomicURL");
    assert(urls::ATOMIC_URL@.len() == 42 && urls::ATOMIC_URL@[33] == 'a');
    reveal_strlit("https://atomicdata.dev/datatypes/boolean");
    assert(urls::BOOLEAN@.len() == 40 && urls::BOOLEAN@[33] == 'b');
    reveal_strlit("https://atomicdata.dev/datatypes/date");
    assert(urls::DATE@.len() == 37 && urls::DATE@[33] == 'd');
    reveal_strlit("https://atomicdata.dev/datatypes/float");
    assert(urls::FLOAT@.len() == 38 && urls::FLOAT@[33] == 'f');
    reveal_strlit("https://atomicdata.dev/datatypes/integer");
    assert(urls::INTEGER@.len() == 40 && urls::INTEGER@[33] == 'i');
    reveal_strlit("https://atomicdata.dev/datatypes/markdown");
    assert(urls::MARKDOWN@.len() == 41 && urls::MARKDOWN@[33] == 'm');
    reveal_strlit("https://atomicdata.dev/datatypes/resourceArray");
    assert(urls::RESOURCE_ARRAY@.len() == 46 && urls::RESOURCE_ARRAY@[33] == 'r');
    reveal_strlit("https://atomicdata.dev/datatypes/slug");
    assert(urls::SLUG@.len() == 37 && urls::SLUG@[33] == 's');
    reveal_strlit("https://atomicdata.dev/datatypes/string");
    assert(urls::STRING@.len() == 39 && urls::STRING@[33] == 's');
    reveal_strlit("https://atomicdata.dev/datatypes/timestamp");
    assert(urls::TIMESTAMP@.len() == 42 && urls::TIMESTAMP@[33] == 't');
}

/// The records of entries are four fields each, and the `k`-th of them
/// is the record of the `k`-th entry.
pub proof fn lemma_entries_fields_at(pvs: Seq<(Seq<char>, ValueView)>, k: int)
    requires
        0 <= k < pvs.len(),
    ensures
        entries_fields(pvs).len() == 4 * pvs.len(),
        entries_fields(pvs).subrange(4 * k, 4 * k + 4) == atom_fields(pvs[k]),
    decreases pvs.len(),
{
    lemma_entries_fields_len(pvs);
    lemma_entries_fields_len(pvs.drop_last());
    let all = entries_fields(pvs);
    if k == pvs.len() - 1 {
        assert(all.subrange(4 * k, 4 * k + 4) =~= atom_fields(pvs[k]));
    } else {
        lemma_entries_fields_at(pvs.drop_last(), k);
        assert(pvs.drop_last()[k] == pvs[k]);
        assert(all.subrange(4 * k, 4 * k + 4) =~= entries_fields(pvs.drop_last()).subrange(
            4 * k,
            4 * k + 4,
        ));
    }
}

/// The records of entries are four fields each.
pub proof fn lemma_entries_fields_len(pvs: Seq<(Seq<char>, ValueView)>)
    ensures
        entries_fields(pvs).len() == 4 * pvs.len(),
    decreases pvs.len(),
{
    if pvs.len() > 0 {
        lemma_entries_fields_len(pvs.drop_last());
    }
}

/// The records of resources start with the records of the first.
pub proof fn lemma_resources_fields_first(rs: Seq<ResourceView>)
    requires
        rs.len() > 0,
    ensures
        resources_fields(rs) == resource_fields(rs[0]) + resources_fields(rs.drop_first()),
    decreases rs.len(),
{
    if rs.len() == 1 {
        assert(rs.drop_last() =~= Seq::<ResourceView>::empty());
        assert(rs.drop_first() =~= Seq::<ResourceView>::empty());
        assert(resources_fields(rs) =~= resource_fields(rs[0]) + resources_fields(
            rs.drop_first(),
        ));
    } else {
        lemma_resources_fields_first(rs.drop_last());
        assert(rs.drop_last().drop_first() =~= rs.drop_first().drop_last());
        assert(rs.drop_last()[0] == rs[0]);
        assert(rs.drop_first().last() == rs.last());
        assert(resources_fields(rs) =~= resource_fields(rs[0]) + resources_fields(
            rs.drop_first(),
        ));
    }
}

/// Reading the records of the entries of a resource from the `k`-th on,
/// after the first `k` were read, gives the resource.
proof fn lemma_entries_read(
    f: Seq<Seq<char>>,
    start: int,
    acc: Seq<ResourceView>,
    r: ResourceView,
    k: int,
)
    requires
        writable(r),
        0 <= k <= r.propvals.len(),
        0 <= start,
        start + 4 * r.propvals.len() <= f.len(),
        f.subrange(start, start + 4 * r.propvals.len()) == entries_fields(r.propvals),
    ensures
        records_from(
            f,
            start + 4 * k,
            acc.push(ResourceView { propvals: r.propvals.take(k), ..r }),
        ) == records_from(f, start + 4 * r.propvals.len(), acc.push(r)),
    decreases r.propvals.len() - k,
{
    let pvs = r.propvals;
    let m = pvs.len() as int;
    let now = ResourceView { propvals: pvs.take(k), ..r };
    if k == m {
        assert(pvs.take(k) =~= pvs);
    } else {
        let i = start + 4 * k;
        let e = pvs[k];
        lemma_entries_fields_at(pvs, k);
        let part = f.subrange(start, start + 4 * m);
        assert(part.subrange(4 * k, 4 * k + 4) == atom_fields(e));
        assert(f[i] == part.subrange(4 * k, 4 * k + 4)[0]);
        assert(f[i + 1] == part.subrange(4 * k, 4 * k + 4)[1]);
        assert(f[i + 2] == part.subrange(4 * k, 4 * k + 4)[2]);
        assert(f[i + 3] == part.subrange(4 * k, 4 * k + 4)[3]);
        assert(f[i] == tag_atom());
        assert(tag_atom()[0] != tag_resource()[0]);
        lemma_datatype_url_round_trip(datatype_of(e.1));
        assert(valid_value(pvs[k].1));
        lemma_value_round_trip(e.1);
        if has_prop(pvs.take(k), e.0) {
            let j = prop_index(pvs.take(k), e.0);
            assert(pvs.take(k)[j] == pvs[j]);
            assert(pvs[j].0 != pvs[k].0);
        }
        assert(upsert(pvs.take(k), e.0, e.1) =~= pvs.take(k + 1));
        let next = ResourceView { propvals: pvs.take(k + 1), ..r };
        let before = acc.push(now);
        assert(with_entry(before.last(), e.0, e.1) == next);
        assert(before.update(before.len() - 1, next) =~= acc.push(next));
        lemma_entries_read(f, start, acc, r, k + 1);
    }
}

/// Reading the records of resources that stand at the end of a row of
/// fields gives those resources.
proof fn lemma_records_read(before: Seq<Seq<char>>, rs: Seq<ResourceView>, acc: Seq<ResourceView>)
    requires
        forall|i: int| 0 <= i < rs.len() ==> writable(#[trigger] rs[i]),
    ensures
        records_from(before + resources_fields(rs), before.len() as int, acc) == Some(acc + rs),
    decreases rs.len(),
{
    let f = before + resources_fields(rs);
    if rs.len() == 0 {
        assert(f =~= before);
        assert(acc + rs =~= acc);
    } else {
        let r = rs[0];
        let rest = rs.drop_first();
        let p = before.len() as int;
        let m = r.propvals.len() as int;
        lemma_resources_fields_first(rs);
        lemma_entries_fields_len(r.propvals);
        assert(f =~= before + header_fields(r) + entries_fields(r.propvals) + resources_fields(
            rest,
        ));
        assert(f[p] == header_fields(r)[0]);
        assert(f[p + 1] == header_fields(r)[1]);
        assert(f[p + 2] == header_fields(r)[2]);
        assert(f[p + 3] == header_fields(r)[3]);
        assert(flag(true)[0] != flag(false)[0]);
        assert(head_from(f[p + 2], f[p + 3]) == Some(r.head));
        let empty = ResourceView { propvals: Seq::empty(), ..r };
        assert(r.propvals.take(0) =~= Seq::empty());
        assert(f.subrange(p + 4, p + 4 + 4 * m) =~= entries_fields(r.propvals));
        assert(writable(r));
        lemma_entries_read(f, p + 4, acc, r, 0);
        let next = before + resource_fields(r);
        assert(f =~= next + resources_fields(rest));
        assert(next.len() == p + 4 + 4 * m);
        assert forall|i: int| 0 <= i < rest.len() implies writable(#[trigger] rest[i]) by {
            assert(rest[i] == rs[i + 1]);
        }
        lemma_records_read(next, rest, acc.push(r));
        assert(acc.push(r) + rest =~= acc + rs);
    }
}

/// Reading what was written gives it back: the resources of the text of
/// resources are those resources, where each can be written.
pub proof fn lemma_resources_round_trip(rs: Seq<ResourceView>)
    requires
        forall|i: int| 0 <= i < rs.len() ==> writable(#[trigger] rs[i]),
    ensures
        text_resources(resources_text(rs)) == Some(rs),
{
    lemma_fields_round_trip(resources_fields(rs));
    lemma_records_read(Seq::empty(), rs, Seq::empty());
    assert(Seq::<Seq<char>>::empty() + resources_fields(rs) =~= resources_fields(rs));
    assert(Seq::<ResourceView>::empty() + rs =~= rs);
}

/// A character as it stands between the double quotes of an N-Triples
/// literal: a backslash before a backslash and before a double quote, and
/// a line break as a backslash and a letter.
pub open spec fn escaped_char(c: char) -> Seq<char> {
    if c == '\\' {
        seq!['\\', '\\']
    } else if c == '"' {
        seq!['\\', '"']
    } else if c == '\n' {
        seq!['\\', 'n']
    } else if c == '\r' {
        seq!['\\', 'r']
    } else {
        seq![c]
    }
}

/// A text as it stands between the double quotes of an N-Triples literal.
pub open spec fn escaped(s: Seq<char>) -> Seq<char>
    decreases s.len(),
{
    if s.len() == 0 {
        Seq::empty()
    } else {
        escaped(s.drop_last()) + escaped_char(s.last())
    }
}

/// The object of an N-Triples statement: a URL between angle brackets,
/// or the text of the value between double quotes with the URL of its
/// datatype after it.
pub open spec fn ntriple_object(v: ValueView) -> Seq<char> {
    match v {
        ValueView::AtomicUrl(url) => seq!['<'] + url + seq!['>'],
        _ => seq!['"'] + escaped(value_text(v)) + seq!['"', '^', '^', '<'] + datatype_url(
            datatype_of(v),
        ) + seq!['>'],
    }
}

/// An atom as an N-Triples statement on a line of its own.
pub open spec fn ntriple(a: AtomView) -> Seq<char> {
    seq!['<'] + a.subject + seq!['>', ' ', '<'] + a.property + seq!['>', ' '] + ntriple_object(
        a.value,
    ) + seq![' ', '.', '\n']
}

/// Atoms as N-Triples statements, one on each line.
pub open spec fn ntriples(atoms: Seq<AtomView>) -> Seq<char>
    decreases atoms.len(),
{
    if atoms.len() == 0 {
        Seq::empty()
    } else {
        ntriples(atoms.drop_last()) + ntriple(atoms.last())
    }
}

/// Writes `text` at the end of `out` as it stands between the double
/// quotes of an N-Triples literal.
pub fn push_escaped(out: &mut String, text: &str)
    ensures
        final(out)@ == old(out)@ + escaped(text@),
{
    let chars = to_chars(text);
    let mut i: usize = 0;
    assert(chars@.take(0) =~= Seq::<char>::empty());
    assert(out@ =~= old(out)@ + escaped(chars@.take(0)));
    while i < chars.len()
        invariant
            i <= chars@.len(),
            chars@ == text@,
            out@ == old(out)@ + escaped(chars@.take(i as int)),
        decreases chars@.len() - i,
    {
        let c = chars[i];
        let ghost before = out@;
        proof {
            reveal_strlit("\\\\");
            reveal_strlit("\\\"");
            reveal_strlit("\\n");
            reveal_strlit("\\r");
            assert(chars@.take(i + 1).drop_last() =~= chars@.take(i as int));
            assert(chars@.take(i + 1).last() == c);
        }
        if c == '\\' {
            out.append("\\\\");
        } else if c == '"' {
            out.append("\\\"");
        } else if c == '\n' {
            out.append("\\n");
        } else if c == '\r' {
            out.append("\\r");
        } else {
            push_char(out, c);
        }
        assert(out@ =~= before + escaped_char(c));
        assert(out@ =~= old(out)@ + escaped(chars@.take(i + 1)));
        i = i + 1;
    }
    assert(chars@.take(i as int) =~= chars@);
}

/// Writes an atom as an N-Triples statement at the end of `out`.
pub fn push_ntriple(out: &mut String, atom: &Atom)
    ensures
        final(out)@ == old(out)@ + ntriple(atom@),
{
    proof {
        reveal_strlit("<");
        reveal_strlit("> <");
        reveal_strlit("> ");
        reveal_strlit(">");
        reveal_strlit("\"");
        reveal_strlit("\"^^<");
        reveal_strlit(" .\n");
    }
    out.append("<");
    out.append(atom.subject.as_str());
    out.append("> <");
    out.append(atom.property.as_str());
    out.append("> ");
    let ghost head = out@;
    assert(head =~= old(out)@ + (seq!['<'] + atom@.subject + seq!['>', ' ', '<'] + atom@.property
        + seq!['>', ' ']));
    match &atom.value {
        Value::AtomicUrl(url) => {
            out.append("<");
            out.append(url.as_str());
            out.append(">");
            assert(out@ =~= head + ntriple_object(atom@.value));
        },
        other => {
            out.append("\"");
            let text = other.to_string();
            push_escaped(out, text.as_str());
            out.append("\"^^<");
            out.append(other.datatype().to_url());
            out.append(">");
            assert(out@ =~= head + ntriple_object(atom@.value));
        },
    }
    out.append(" .\n");
    assert(out@ =~= old(out)@ + ntriple(atom@));
}

/// Writes atoms as N-Triples statements, one on each line.
pub fn atoms_to_ntriples(atoms: &Vec<Atom>) -> (r: String)
    ensures
        r@ == ntriples(atom_views(atoms@)),
{
    let ghost all = atom_views(atoms@);
    let mut out = String::new();
    let mut i: usize = 0;
    assert(all.take(0) =~= Seq::<AtomView>::empty());
    assert(out@ =~= ntriples(all.take(0)));
    while i < atoms.len()
        invariant
            i <= atoms@.len(),
            all == atom_views(atoms@),
            out@ == ntriples(all.take(i as int)),
        decreases atoms@.len() - i,
    {
        proof {
            assert(all.take(i + 1).drop_last() =~= all.take(i as int));
            assert(all.take(i + 1).last() == atoms@[i as int]@);
        }
        push_ntriple(&mut out, &atoms[i]);
        i = i + 1;
    }
    assert(all.take(i as int) =~= all);
    out
}

/// Writes resources as text.
pub fn serialize_resources(resources: &Vec<Resource>) -> (r: String)
    ensures
        r@ == resources_text(resource_views(resources@)),
{
    proof {
        reveal_strlit("R");
        reveal_strlit("A");
        reveal_strlit("1");
        reveal_strlit("0");
        assert("R"@ =~= tag_resource());
        assert("A"@ =~= tag_atom());
        assert("1"@ =~= flag(true));
        assert("0"@ =~= flag(false));
    }
    let ghost rs = resource_views(resources@);
    let mut fields: Vec<String> = Vec::new();
    let mut i: usize = 0;
    assert(rs.take(0) =~= Seq::<ResourceView>::empty());
    assert(views(fields@) =~= resources_fields(rs.take(0)));
    while i < resources.len()
        invariant
            i <= resources@.len(),
            rs == resource_views(resources@),
            views(fields@) == resources_fields(rs.take(i as int)),
            "R"@ == tag_resource(),
            "A"@ == tag_atom(),
            "1"@ == flag(true),
            "0"@ == flag(false),
        decreases resources@.len() - i,
    {
        let resource = &resources[i];
        let ghost done = views(fields@);
        proof {
            assert(rs.take(i + 1).drop_last() =~= rs.take(i as int));
            assert(rs.take(i + 1).last() == resource@);
        }
        fields.push("R".to_owned());
        fields.push(resource.get_subject().clone());
        match resource.get_head() {
            Some(h) => {
                fields.push("1".to_owned());
                fields.push(h);
            },
            None => {
                fields.push("0".to_owned());
                fields.push(String::new());
            },
        }
        assert(views(fields@) =~= done + header_fields(resource@));
        let propvals = resource.get_propvals();
        let ghost pvs = resource@.propvals;
        let mut j: usize = 0;
        assert(pvs.take(0) =~= Seq::empty());
        assert(views(fields@) =~= done + header_fields(resource@) + entries_fields(pvs.take(0)));
        while j < propvals.len()
            invariant
                j <= propvals@.len(),
                pvs == propval_views(propvals@),
                views(fields@) == done + header_fields(resource@) + entries_fields(
                    pvs.take(j as int),
                ),
                "A"@ == tag_atom(),
            decreases propvals@.len() - j,
        {
            let entry = &propvals[j];
            let ghost head = views(fields@);
            proof {
                assert(pvs.take(j + 1).drop_last() =~= pvs.take(j as int));
                assert(pvs.take(j + 1).last() == entry@);
            }
            fields.push("A".to_owned());
            fields.push(entry.property.clone());
            fields.push(entry.value.datatype().to_url().to_owned());
            fields.push(entry.value.to_string());
            assert(views(fields@) =~= head + atom_fields(entry@));
            assert(views(fields@) =~= done + header_fields(resource@) + entries_fields(
                pvs.take(j + 1),
            ));
            j = j + 1;
        }
        assert(pvs.take(j as int) =~= pvs);
        assert(views(fields@) =~= done + resource_fields(resource@));
        i = i + 1;
    }
    assert(rs.take(i as int) =~= rs);
    write_fields(&fields)
}

/// Reads resources from text. A text that is not the text of resources
/// gives nothing.
pub fn parse_resources(text: &str) -> (r: Option<Vec<Resource>>)
    ensures
        match text_resources(text@) {
            Some(rs) => r matches Some(v) && resource_views(v@) == rs,
            None => r is None,
        },
{
    proof {
        reveal_strlit("R");
        reveal_strlit("A");
        reveal_strlit("1");
        reveal_strlit("0");
        assert("R"@ =~= tag_resource());
        assert("A"@ =~= tag_atom());
        assert("1"@ =~= flag(true));
        assert("0"@ =~= flag(false));
    }
    let fields = match read_fields(text) {
        Some(fields) => fields,
        None => {
            return None;
        },
    };
    let ghost f = views(fields@);
    let n = fields.len();
    let mut out: Vec<Resource> = Vec::new();
    let mut i: usize = 0;
    assert(resource_views(out@) =~= Seq::<ResourceView>::empty());
    while i < n
        invariant
            i <= n,
            n == fields@.len(),
            f == views(fields@),
            text_fields(text@) == Some(f),
            records_from(f, i as int, resource_views(out@)) == records_from(f, 0, Seq::empty()),
            "R"@ == tag_resource(),
            "A"@ == tag_atom(),
            "1"@ == flag(true),
            "0"@ == flag(false),
        decreases n - i,
    {
        if n - i < 4 {
            return None;
        }
        let ghost acc = resource_views(out@);
        proof {
            assert(f[i as int] == fields@[i as int]@);
            assert(f[i + 1] == fields@[i + 1]@);
            assert(f[i + 2] == fields@[i + 2]@);
            assert(f[i + 3] == fields@[i + 3]@);
        }
        if str_eq(fields[i].as_str(), "R") {
            let head = if str_eq(fields[i + 2].as_str(), "1") {
                Some(fields[i + 3].clone())
            } else if str_eq(fields[i + 2].as_str(), "0") && fields[i + 3].as_str().is_empty() {
                None
            } else {
                return None;
            };
            let mut resource = Resource::new(fields[i + 1].clone());
            resource.set_head(head);
            out.push(resource);
            assert(resource_views(out@) =~= acc.push(resource@));
        } else if str_eq(fields[i].as_str(), "A") && out.len() > 0 {
            let datatype = match match_datatype(fields[i + 2].as_str()) {
                Some(datatype) => datatype,
                None => {
                    return None;
                },
            };
            let value = match Value::new(fields[i + 3].as_str(), datatype) {
                Ok(value) => value,
                Err(_) => {
                    return None;
                },
            };
            let mut last = out.pop().unwrap();
            assert(last@ == acc.last());
            last.set_propval_unsafe(fields[i + 1].clone(), value);
            out.push(last);
            assert(resource_views(out@) =~= acc.update(
                acc.len() - 1,
                with_entry(acc.last(), f[i + 1], value@),
            ));
        } else {
            return None;
        }
        i = i + 4;
    }
    Some(out)
}

} // verus!
