//! Commits: signed, chained changes to one subject, and how a store
//! applies them.

use vstd::prelude::*;
use vstd::string::StrSliceExecFns;
use vstd::string::StringExecFns;
use vstd::utf8::encode_utf8;

use crate::agents::{clone_option, option_text, option_view, Agent, AgentView};
use crate::crypto::{
    base64_bytes, base64_text, decode_base64, ed25519_signature, ed25519_verifies, encode_base64,
    sign_with, verifies,
};
use crate::datetime_helpers::now;
use crate::decimal::{int_text, nat_digits, push_i64, push_u64};
use crate::errors::{AtomicError, ErrorView};
use crate::hierarchy::{rights_of, Right, MAX_DEPTH};
use crate::model::{
    distinct_subjects, drop_resource, find_resource, lemma_put_resource, put_resource,
};
use crate::resources::{lookup, propval_views, upsert, without, PropVal, Resource, ResourceView};
use crate::storelike::Storelike;
use crate::text::{clone_strings, str_eq, views};
use crate::urls;
use crate::validate::{required_check, set_fault};
use crate::values::{datatype_of, datatype_url, valid_value, value_text, Value, ValueView};

verus! {

/// A change to one subject, signed by an agent.
#[derive(Debug)]
pub struct Commit {
    subject: String,
    created_at: i64,
    signer: String,
    set: Vec<PropVal>,
    remove: Vec<String>,
    destroy: bool,
    previous_commit: Option<String>,
    signature: String,
}

/// A commit, with texts as sequences of characters.
pub struct CommitView {
    pub subject: Seq<char>,
    pub created_at: i64,
    pub signer: Seq<char>,
    /// The properties that get a value, in the order in which they do.
    pub set: Seq<(Seq<char>, ValueView)>,
    /// The properties that lose their value.
    pub remove: Seq<Seq<char>>,
    pub destroy: bool,
    /// The identity of the commit that this one follows.
    pub previous_commit: Option<Seq<char>>,
    /// The signature over every other field. It is the commit's identity.
    pub signature: Seq<char>,
}

impl View for Commit {
    type V = CommitView;

    closed spec fn view(&self) -> CommitView {
        CommitView {
            subject: self.subject@,
            created_at: self.created_at,
            signer: self.signer@,
            set: propval_views(self.set@),
            remove: views(self.remove@),
            destroy: self.destroy,
            previous_commit: option_view(self.previous_commit),
            signature: self.signature@,
        }
    }
}

/// A text as a field of a message: its length, a colon, the text, a comma.
pub open spec fn field(s: Seq<char>) -> Seq<char> {
    nat_digits(s.len()) + seq![':'] + s + seq![',']
}

/// One entry of a commit's `set`: the property, the datatype of the value
/// and the text of the value, each as a field.
pub open spec fn entry_text(e: (Seq<char>, ValueView)) -> Seq<char> {
    field(e.0) + field(datatype_url(datatype_of(e.1))) + field(value_text(e.1))
}

/// The entries of a commit's `set`, one after the other.
pub open spec fn entries_text(set: Seq<(Seq<char>, ValueView)>) -> Seq<char>
    decreases set.len(),
{
    if set.len() == 0 {
        Seq::empty()
    } else {
        entries_text(set.drop_last()) + entry_text(set.last())
    }
}

/// Texts as fields, one after the other.
pub open spec fn fields_text(items: Seq<Seq<char>>) -> Seq<char>
    decreases items.len(),
{
    if items.len() == 0 {
        Seq::empty()
    } else {
        fields_text(items.drop_last()) + field(items.last())
    }
}

/// The head of a message: the subject, the signer and the time as fields,
/// a mark for destruction, and the commit that this one follows, where
/// there is one, as a field after a mark.
pub open spec fn header_text(
    subject: Seq<char>,
    signer: Seq<char>,
    created_at: i64,
    destroy: bool,
    previous_commit: Option<Seq<char>>,
) -> Seq<char> {
    field(subject) + field(signer) + field(int_text(created_at as int)) + (if destroy {
        seq!['1']
    } else {
        seq!['0']
    }) + (match previous_commit {
        Some(p) => seq!['1'] + field(p),
        None => seq!['0'],
    })
}

/// The entries of a commit's `set`, after their number.
pub open spec fn set_text(set: Seq<(Seq<char>, ValueView)>) -> Seq<char> {
    field(nat_digits(set.len())) + entries_text(set)
}

/// The properties that a commit removes, after their number.
pub open spec fn remove_text(remove: Seq<Seq<char>>) -> Seq<char> {
    field(nat_digits(remove.len())) + fields_text(remove)
}

/// The text that a signature covers: every field of the commit but the
/// signature, in a fixed order, each with its length before it.
pub open spec fn commit_message(c: CommitView) -> Seq<char> {
    header_text(c.subject, c.signer, c.created_at, c.destroy, c.previous_commit) + set_text(
        c.set,
    ) + remove_text(c.remove)
}

/// The public key that the store has for `signer`: the text under the
/// public-key property of the signer's resource.
pub open spec fn signer_key(rs: Seq<ResourceView>, signer: Seq<char>) -> Option<Seq<char>> {
    match find_resource(rs, signer) {
        Some(agent) => match lookup(agent.propvals, urls::PUBLIC_KEY@) {
            Some(key) => Some(value_text(key)),
            None => None,
        },
        None => None,
    }
}

/// What is wrong with the signature of `c`, if anything. A signer that
/// the store does not hold, or one without a public key that can be read,
/// is unauthorized. A signature that cannot be read, or that does not
/// verify under the signer's public key over the commit's message, is
/// invalid.
pub open spec fn signature_fault(rs: Seq<ResourceView>, c: CommitView) -> Option<ErrorView> {
    match signer_key(rs, c.signer) {
        None => Some(ErrorView::Unauthorized(c.signer)),
        Some(key) => match base64_bytes(key) {
            None => Some(ErrorView::Unauthorized(c.signer)),
            Some(public_key) => match base64_bytes(c.signature) {
                None => Some(ErrorView::InvalidSignature),
                Some(signature) => if ed25519_verifies(
                    public_key,
                    encode_utf8(commit_message(c)),
                    signature,
                ) {
                    None
                } else {
                    Some(ErrorView::InvalidSignature)
                },
            },
        },
    }
}

/// The value that the last entry for `p` gives it.
pub open spec fn last_value(set: Seq<(Seq<char>, ValueView)>, p: Seq<char>) -> Option<ValueView>
    decreases set.len(),
{
    if set.len() == 0 {
        None
    } else if set.last().0 == p {
        Some(set.last().1)
    } else {
        last_value(set.drop_last(), p)
    }
}

/// The resource under which a commit places a new subject: the parent
/// that it sets, else the store's base URL.
pub open spec fn intended_parent(c: CommitView, base: Seq<char>) -> Seq<char> {
    match last_value(c.set, urls::PARENT@) {
        Some(v) => value_text(v),
        None => base,
    }
}

/// What stands against the commit being made, if anything. Where the
/// commit is applied on behalf of an agent, its signer needs the right to
/// write: on the resource where the store holds the subject, else on the
/// parent that the commit intends for it. A parent that the store does
/// not hold grants nothing. Without an agent nothing is asked.
pub open spec fn write_fault(
    rs: Seq<ResourceView>,
    base: Seq<char>,
    c: CommitView,
    agent: Option<Seq<char>>,
) -> Option<ErrorView> {
    match agent {
        None => None,
        Some(_) => {
            let target = match find_resource(rs, c.subject) {
                Some(r) => Some(r),
                None => find_resource(rs, intended_parent(c, base)),
            };
            match target {
                None => Some(ErrorView::Unauthorized(c.subject)),
                Some(t) => match rights_of(rs, t, c.signer, Right::Write, MAX_DEPTH as nat) {
                    Ok(true) => None,
                    Ok(false) => Some(ErrorView::Unauthorized(c.subject)),
                    Err(e) => Some(e),
                },
            }
        },
    }
}

/// The entries after each entry of `set` is given its value, in order.
pub open spec fn set_all(pvs: Seq<(Seq<char>, ValueView)>, set: Seq<(Seq<char>, ValueView)>)
    -> Seq<(Seq<char>, ValueView)>
    decreases set.len(),
{
    if set.len() == 0 {
        pvs
    } else {
        upsert(set_all(pvs, set.drop_last()), set.last().0, set.last().1)
    }
}

/// The entries after each property of `remove` is taken out, in order.
pub open spec fn remove_all(pvs: Seq<(Seq<char>, ValueView)>, remove: Seq<Seq<char>>) -> Seq<
    (Seq<char>, ValueView),
>
    decreases remove.len(),
{
    if remove.len() == 0 {
        pvs
    } else {
        without(remove_all(pvs, remove.drop_last()), remove.last())
    }
}

/// The resource that a commit makes of what the store holds for its
/// subject: the entries that were there, with those of `set` given their
/// values and those of `remove` taken out, and the commit as its head.
pub open spec fn changed_resource(rs: Seq<ResourceView>, c: CommitView) -> ResourceView {
    let start = match find_resource(rs, c.subject) {
        Some(r) => r.propvals,
        None => Seq::empty(),
    };
    ResourceView {
        subject: c.subject,
        propvals: remove_all(set_all(start, c.set), c.remove),
        head: Some(c.signature),
    }
}

/// The head of a subject: the identity of the last commit that was
/// applied to it; none where the store does not hold the subject.
pub open spec fn head_of(rs: Seq<ResourceView>, subject: Seq<char>) -> Option<Seq<char>> {
    match find_resource(rs, subject) {
        Some(r) => r.head,
        None => None,
    }
}

/// What applying a commit whose signature was found good gives: the
/// resources of the store afterwards and the resource that the commit
/// made, or the reason why the commit is refused.
///
/// A commit that does not name the subject's head as the one it follows
/// is in conflict. Then the signer's right to write is asked for, where
/// the commit is applied on behalf of an agent. A commit
/// that destroys needs the subject to be there, and takes it out. Any
/// other has its entries checked against the datatypes of their
/// properties, makes the changed resource, asks whether that has what its
/// classes require, and stores it.
pub open spec fn commit_outcome(
    rs: Seq<ResourceView>,
    base: Seq<char>,
    c: CommitView,
    agent: Option<Seq<char>>,
) -> Result<(Seq<ResourceView>, ResourceView), ErrorView> {
    if c.previous_commit != head_of(rs, c.subject) {
        Err(ErrorView::Conflict)
    } else if write_fault(rs, base, c, agent) is Some {
        Err(write_fault(rs, base, c, agent)->0)
    } else if c.destroy {
        match find_resource(rs, c.subject) {
            None => Err(ErrorView::NotFound(c.subject)),
            Some(r) => Ok((drop_resource(rs, c.subject), r)),
        }
    } else if set_fault(rs, c.set, 0) is Some {
        Err(set_fault(rs, c.set, 0)->0)
    } else if required_check(rs, changed_resource(rs, c)) is Some {
        Err(required_check(rs, changed_resource(rs, c))->0)
    } else {
        Ok((put_resource(rs, changed_resource(rs, c)), changed_resource(rs, c)))
    }
}

/// What applying a commit gives: a fault of the signature refuses it
/// before anything else is looked at.
pub open spec fn apply_outcome(
    rs: Seq<ResourceView>,
    base: Seq<char>,
    c: CommitView,
    agent: Option<Seq<char>>,
) -> Result<(Seq<ResourceView>, ResourceView), ErrorView> {
    match signature_fault(rs, c) {
        Some(e) => Err(e),
        None => commit_outcome(rs, base, c, agent),
    }
}

/// A commit whose signature does not verify under the public key of its
/// signer is refused as invalidly signed, whatever else it holds.
pub proof fn lemma_bad_signature_rejected(
    rs: Seq<ResourceView>,
    base: Seq<char>,
    c: CommitView,
    agent: Option<Seq<char>>,
)
    requires
        signer_key(rs, c.signer) matches Some(key) && base64_bytes(key) matches Some(public_key)
            && (base64_bytes(c.signature) matches Some(signature) ==> !ed25519_verifies(
            public_key,
            encode_utf8(commit_message(c)),
            signature,
        )),
    ensures
        apply_outcome(rs, base, c, agent) == Err::<(Seq<ResourceView>, ResourceView), ErrorView>(
            ErrorView::InvalidSignature,
        ),
{
}

/// A commit that names another commit than the subject's head as the one
/// it follows is in conflict, whatever else it holds.
pub proof fn lemma_stale_commit_conflicts(
    rs: Seq<ResourceView>,
    base: Seq<char>,
    c: CommitView,
    agent: Option<Seq<char>>,
)
    requires
        c.previous_commit != head_of(rs, c.subject),
    ensures
        commit_outcome(rs, base, c, agent) == Err::<(Seq<ResourceView>, ResourceView), ErrorView>(
            ErrorView::Conflict,
        ),
{
}

/// A commit that is applied and does not destroy becomes the head of its
/// subject, and the subjects of the store stay distinct.
pub proof fn lemma_commit_becomes_head(
    rs: Seq<ResourceView>,
    base: Seq<char>,
    c: CommitView,
    agent: Option<Seq<char>>,
)
    requires
        distinct_subjects(rs),
        !c.destroy,
        commit_outcome(rs, base, c, agent) is Ok,
    ensures
        ({
            let after = commit_outcome(rs, base, c, agent)->Ok_0.0;
            distinct_subjects(after) && head_of(after, c.subject) == Some(c.signature)
        }),
{
    lemma_put_resource(rs, changed_resource(rs, c));
}

/// The chain of a subject. After a first commit and a second that follows
/// it are applied, a third that names the first as the one it follows is
/// in conflict.
pub proof fn lemma_chain_integrity(
    rs: Seq<ResourceView>,
    base: Seq<char>,
    c1: CommitView,
    c2: CommitView,
    c3: CommitView,
    agent: Option<Seq<char>>,
)
    requires
        distinct_subjects(rs),
        c1.subject == c2.subject,
        c2.subject == c3.subject,
        !c1.destroy,
        !c2.destroy,
        c2.signature != c1.signature,
        c3.previous_commit == Some(c1.signature),
        commit_outcome(rs, base, c1, agent) is Ok,
        commit_outcome(commit_outcome(rs, base, c1, agent)->Ok_0.0, base, c2, agent) is Ok,
    ensures
        ({
            let after_first = commit_outcome(rs, base, c1, agent)->Ok_0.0;
            let after_second = commit_outcome(after_first, base, c2, agent)->Ok_0.0;
            &&& c2.previous_commit == Some(c1.signature)
            &&& commit_outcome(after_second, base, c3, agent) == Err::<
                (Seq<ResourceView>, ResourceView),
                ErrorView,
            >(ErrorView::Conflict)
        }),
{
    let after_first = commit_outcome(rs, base, c1, agent)->Ok_0.0;
    lemma_commit_becomes_head(rs, base, c1, agent);
    lemma_commit_becomes_head(after_first, base, c2, agent);
}

/// Writes `s` as a field at the end of `out`.
pub fn push_field(out: &mut String, s: &str)
    ensures
        final(out)@ == old(out)@ + field(s@),
{
    proof {
        reveal_strlit(":");
        reveal_strlit(",");
    }
    let n = s.unicode_len();
    push_u64(out, n as u64);
    out.append(":");
    out.append(s);
    out.append(",");
    assert(out@ =~= old(out)@ + field(s@));
}

/// Writes a number as a field at the end of `out`.
fn push_count(out: &mut String, n: usize)
    ensures
        final(out)@ == old(out)@ + field(nat_digits(n as nat)),
{
    let mut digits = String::new();
    push_u64(&mut digits, n as u64);
    assert(digits@ =~= nat_digits(n as nat));
    push_field(out, digits.as_str());
}

/// Writes the head of a message at the end of `out`.
fn push_header(
    out: &mut String,
    subject: &str,
    signer: &str,
    created_at: i64,
    destroy: bool,
    previous_commit: &Option<String>,
)
    ensures
        final(out)@ == old(out)@ + header_text(
            subject@,
            signer@,
            created_at,
            destroy,
            option_view(*previous_commit),
        ),
{
    proof {
        reveal_strlit("0");
        reveal_strlit("1");
    }
    push_field(out, subject);
    push_field(out, signer);
    let mut stamp = String::new();
    push_i64(&mut stamp, created_at);
    assert(stamp@ =~= int_text(created_at as int));
    push_field(out, stamp.as_str());
    let ghost fields = out@;
    assert(fields =~= old(out)@ + (field(subject@) + field(signer@) + field(
        int_text(created_at as int),
    )));
    if destroy {
        out.append("1");
    } else {
        out.append("0");
    }
    match previous_commit {
        Some(p) => {
            out.append("1");
            push_field(out, p.as_str());
        },
        None => {
            out.append("0");
        },
    }
    assert(out@ =~= old(out)@ + header_text(
        subject@,
        signer@,
        created_at,
        destroy,
        option_view(*previous_commit),
    ));
}

/// Writes the entries of a commit's `set` at the end of `out`.
fn push_set(out: &mut String, set: &Vec<PropVal>)
    ensures
        final(out)@ == old(out)@ + set_text(propval_views(set@)),
{
    let ghost entries = propval_views(set@);
    push_count(out, set.len());
    let ghost head = out@;
    let mut i: usize = 0;
    assert(entries.take(0) =~= Seq::empty());
    assert(out@ =~= head + entries_text(entries.take(0)));
    while i < set.len()
        invariant
            i <= set@.len(),
            entries == propval_views(set@),
            out@ == head + entries_text(entries.take(i as int)),
        decreases set@.len() - i,
    {
        proof {
            assert(entries.take(i + 1).drop_last() =~= entries.take(i as int));
            assert(entries.take(i + 1).last() == set@[i as int]@);
        }
        let ghost before = out@;
        push_field(out, set[i].property.as_str());
        push_field(out, set[i].value.datatype().to_url());
        let text = set[i].value.to_string();
        push_field(out, text.as_str());
        assert(out@ =~= before + entry_text(set@[i as int]@));
        assert(out@ =~= head + entries_text(entries.take(i + 1)));
        i = i + 1;
    }
    assert(entries.take(i as int) =~= entries);
    assert(out@ =~= old(out)@ + set_text(entries));
}

/// Writes the properties that a commit removes at the end of `out`.
fn push_remove(out: &mut String, remove: &Vec<String>)
    ensures
        final(out)@ == old(out)@ + remove_text(views(remove@)),
{
    let ghost removed = views(remove@);
    push_count(out, remove.len());
    let ghost head = out@;
    let mut j: usize = 0;
    assert(removed.take(0) =~= Seq::empty());
    assert(out@ =~= head + fields_text(removed.take(0)));
    while j < remove.len()
        invariant
            j <= remove@.len(),
            removed == views(remove@),
            out@ == head + fields_text(removed.take(j as int)),
        decreases remove@.len() - j,
    {
        proof {
            assert(removed.take(j + 1).drop_last() =~= removed.take(j as int));
            assert(removed.take(j + 1).last() == remove@[j as int]@);
        }
        push_field(out, remove[j].as_str());
        assert(out@ =~= head + fields_text(removed.take(j + 1)));
        j = j + 1;
    }
    assert(removed.take(j as int) =~= removed);
    assert(out@ =~= old(out)@ + remove_text(removed));
}

/// The text that a signature covers, from the fields of a commit.
pub fn message_text(
    subject: &str,
    created_at: i64,
    signer: &str,
    set: &Vec<PropVal>,
    remove: &Vec<String>,
    destroy: bool,
    previous_commit: &Option<String>,
) -> (r: String)
    ensures
        r@ == commit_message(
            CommitView {
                subject: subject@,
                created_at,
                signer: signer@,
                set: propval_views(set@),
                remove: views(remove@),
                destroy,
                previous_commit: option_view(*previous_commit),
                signature: Seq::empty(),
            },
        ),
{
    let mut out = String::new();
    push_header(&mut out, subject, signer, created_at, destroy, previous_commit);
    push_set(&mut out, set);
    push_remove(&mut out, remove);
    assert(out@ =~= header_text(
        subject@,
        signer@,
        created_at,
        destroy,
        option_view(*previous_commit),
    ) + set_text(propval_views(set@)) + remove_text(views(remove@)));
    out
}

/// Whether two optional texts are the same.
pub fn same_option(a: &Option<String>, b: &Option<String>) -> (r: bool)
    ensures
        r == (option_view(*a) == option_view(*b)),
{
    match (a, b) {
        (Some(x), Some(y)) => *x == *y,
        (None, None) => true,
        _ => false,
    }
}

/// A copy of a vector of entries.
pub fn clone_propvals(v: &Vec<PropVal>) -> (r: Vec<PropVal>)
    ensures
        propval_views(r@) == propval_views(v@),
{
    let mut r: Vec<PropVal> = Vec::new();
    let mut i: usize = 0;
    while i < v.len()
        invariant
            i <= v@.len(),
            r@.len() == i,
            forall|j: int| 0 <= j < i ==> (#[trigger] r@[j])@ == v@[j]@,
        decreases v@.len() - i,
    {
        r.push(v[i].clone());
        i = i + 1;
    }
    assert(propval_views(r@) =~= propval_views(v@));
    r
}

impl Commit {
    /// A commit from its fields, as they came over the wire.
    pub fn from_parts(
        subject: String,
        created_at: i64,
        signer: String,
        set: Vec<PropVal>,
        remove: Vec<String>,
        destroy: bool,
        previous_commit: Option<String>,
        signature: String,
    ) -> (r: Commit)
        ensures
            r@ == (CommitView {
                subject: subject@,
                created_at,
                signer: signer@,
                set: propval_views(set@),
                remove: views(remove@),
                destroy,
                previous_commit: option_view(previous_commit),
                signature: signature@,
            }),
    {
        Commit { subject, created_at, signer, set, remove, destroy, previous_commit, signature }
    }

    /// The subject that the commit changes.
    pub fn get_subject(&self) -> (r: &String)
        ensures
            r@ == self@.subject,
    {
        &self.subject
    }

    /// The agent that signed.
    pub fn get_signer(&self) -> (r: &String)
        ensures
            r@ == self@.signer,
    {
        &self.signer
    }

    /// The signature.
    pub fn get_signature(&self) -> (r: &String)
        ensures
            r@ == self@.signature,
    {
        &self.signature
    }

    /// The identity of the commit in the chain of its subject: its
    /// signature, which covers every other field.
    pub fn hash(&self) -> (r: String)
        ensures
            r@ == self@.signature,
    {
        self.signature.clone()
    }

    /// The text that the signature covers.
    pub fn serialize_deterministically(&self) -> (r: String)
        ensures
            r@ == commit_message(self@),
    {
        message_text(
            self.subject.as_str(),
            self.created_at,
            self.signer.as_str(),
            &self.set,
            &self.remove,
            self.destroy,
            &self.previous_commit,
        )
    }

    /// The value that the last entry of `set` for `property` gives it.
    fn last_set(&self, property: &str) -> (r: Option<String>)
        ensures
            match last_value(self@.set, property@) {
                Some(v) => r matches Some(x) && x@ == value_text(v),
                None => r is None,
            },
    {
        let ghost set = propval_views(self.set@);
        let mut i: usize = self.set.len();
        assert(set.take(i as int) =~= set);
        while i > 0
            invariant
                i <= self.set@.len(),
                set == propval_views(self.set@),
                last_value(set.take(i as int), property@) == last_value(set, property@),
            decreases i,
        {
            proof {
                assert(set.take(i as int).drop_last() =~= set.take(i - 1));
                assert(set.take(i as int).last() == self.set@[i - 1]@);
            }
            i = i - 1;
            if str_eq(self.set[i].property.as_str(), property) {
                return Some(self.set[i].value.to_string());
            }
        }
        None
    }
}

impl Clone for Commit {
    fn clone(&self) -> (r: Self)
        ensures
            r@ == self@,
    {
        Commit {
            subject: self.subject.clone(),
            created_at: self.created_at,
            signer: self.signer.clone(),
            set: clone_propvals(&self.set),
            remove: clone_strings(&self.remove),
            destroy: self.destroy,
            previous_commit: clone_option(&self.previous_commit),
            signature: self.signature.clone(),
        }
    }
}

/// A commit in the making: what it changes, before anyone has signed it.
#[derive(Debug)]
pub struct CommitBuilder {
    subject: String,
    set: Vec<PropVal>,
    remove: Vec<String>,
    destroy: bool,
    previous_commit: Option<String>,
}

/// A commit in the making, with texts as sequences of characters.
pub struct BuilderView {
    pub subject: Seq<char>,
    pub set: Seq<(Seq<char>, ValueView)>,
    pub remove: Seq<Seq<char>>,
    pub destroy: bool,
    pub previous_commit: Option<Seq<char>>,
}

impl View for CommitBuilder {
    type V = BuilderView;

    closed spec fn view(&self) -> BuilderView {
        BuilderView {
            subject: self.subject@,
            set: propval_views(self.set@),
            remove: views(self.remove@),
            destroy: self.destroy,
            previous_commit: option_view(self.previous_commit),
        }
    }
}

/// The commit that a builder makes once `signer` signs it at
/// `created_at` with `signature`.
pub open spec fn signed(b: BuilderView, signer: Seq<char>, created_at: i64, signature: Seq<char>)
    -> CommitView {
    CommitView {
        subject: b.subject,
        created_at,
        signer,
        set: b.set,
        remove: b.remove,
        destroy: b.destroy,
        previous_commit: b.previous_commit,
        signature,
    }
}

/// What signing gives. An agent without a private key cannot sign and is
/// unauthorized. A private key that cannot be read, or that is not 32
/// bytes long, is a validation error that holds the agent. Else the
/// commit carries the agent's signature over its message.
pub open spec fn sign_outcome(b: BuilderView, agent: AgentView, created_at: i64) -> Result<
    CommitView,
    ErrorView,
> {
    match agent.private_key {
        None => Err(ErrorView::Unauthorized(agent.subject)),
        Some(key) => match base64_bytes(key) {
            None => Err(ErrorView::Validation(agent.subject)),
            Some(secret) => match ed25519_signature(
                secret,
                encode_utf8(commit_message(signed(b, agent.subject, created_at, Seq::empty()))),
            ) {
                None => Err(ErrorView::Validation(agent.subject)),
                Some(signature) => Ok(
                    signed(b, agent.subject, created_at, base64_text(signature)),
                ),
            },
        },
    }
}

impl CommitBuilder {
    /// A builder for a commit to `subject` that changes nothing yet.
    pub fn new(subject: String) -> (r: CommitBuilder)
        ensures
            r@ == (BuilderView {
                subject: subject@,
                set: Seq::empty(),
                remove: Seq::empty(),
                destroy: false,
                previous_commit: None,
            }),
    {
        let r = CommitBuilder {
            subject,
            set: Vec::new(),
            remove: Vec::new(),
            destroy: false,
            previous_commit: None,
        };
        assert(propval_views(r.set@) =~= Seq::empty());
        assert(views(r.remove@) =~= Seq::empty());
        r
    }

    /// Lets the commit give `property` the value `value`.
    pub fn set(&mut self, property: String, value: Value)
        ensures
            final(self)@ == (BuilderView {
                set: old(self)@.set.push((property@, value@)),
                ..old(self)@
            }),
    {
        let ghost before = propval_views(self.set@);
        self.set.push(PropVal { property, value });
        assert(propval_views(self.set@) =~= before.push((property@, value@)));
    }

    /// Lets the commit take the value of `property` out.
    pub fn remove(&mut self, property: String)
        ensures
            final(self)@ == (BuilderView {
                remove: old(self)@.remove.push(property@),
                ..old(self)@
            }),
    {
        let ghost before = views(self.remove@);
        self.remove.push(property);
        assert(views(self.remove@) =~= before.push(property@));
    }

    /// Says whether the commit destroys its subject.
    pub fn destroy(&mut self, destroy: bool)
        ensures
            final(self)@ == (BuilderView { destroy, ..old(self)@ }),
    {
        self.destroy = destroy;
    }

    /// Names the commit that this one follows.
    pub fn set_previous_commit(&mut self, previous_commit: Option<String>)
        ensures
            final(self)@ == (BuilderView {
                previous_commit: option_view(previous_commit),
                ..old(self)@
            }),
    {
        self.previous_commit = previous_commit;
    }

    /// Signs the commit as `agent`, with `created_at` as the time of
    /// signing.
    pub fn sign_at(self, agent: &Agent, created_at: i64) -> (r: Result<Commit, AtomicError>)
        ensures
            match sign_outcome(self@, agent@, created_at) {
                Ok(c) => r matches Ok(x) && x@ == c,
                Err(e) => r matches Err(x) && x@ == e,
            },
    {
        let key = match &agent.private_key {
            Some(key) => key,
            None => {
                return Err(AtomicError::Unauthorized(agent.subject.clone()));
            },
        };
        let secret = match decode_base64(key.as_str()) {
            Some(secret) => secret,
            None => {
                return Err(AtomicError::Validation(agent.subject.clone()));
            },
        };
        let message = message_text(
            self.subject.as_str(),
            created_at,
            agent.subject.as_str(),
            &self.set,
            &self.remove,
            self.destroy,
            &self.previous_commit,
        );
        let bytes = message.as_str().as_bytes_vec();
        let signature = match sign_with(&secret, &bytes) {
            Some(signature) => signature,
            None => {
                return Err(AtomicError::Validation(agent.subject.clone()));
            },
        };
        Ok(
            Commit {
                subject: self.subject,
                created_at,
                signer: agent.subject.clone(),
                set: self.set,
                remove: self.remove,
                destroy: self.destroy,
                previous_commit: self.previous_commit,
                signature: encode_base64(&signature),
            },
        )
    }

    /// Signs the commit as `agent`, now. Where the clock stands before the
    /// epoch there is no time to sign at, and this is not offered. Else,
    /// whatever the clock says, the outcome is that of signing at the time
    /// that the commit then holds.
    pub fn sign(self, agent: &Agent) -> (r: Result<Commit, AtomicError>)
        ensures
            (r matches Err(e) && e@ == ErrorView::Unsupported) || exists|created_at: i64|
                created_at >= 0 && match #[trigger] sign_outcome(self@, agent@, created_at) {
                    Ok(c) => r matches Ok(x) && x@ == c,
                    Err(e) => r matches Err(x) && x@ == e,
                },
    {
        let created_at = match now() {
            Some(created_at) => created_at,
            None => {
                return Err(AtomicError::Unsupported);
            },
        };
        let ghost b = self@;
        let r = self.sign_at(agent, created_at);
        assert(match sign_outcome(b, agent@, created_at) {
            Ok(c) => r matches Ok(x) && x@ == c,
            Err(e) => r matches Err(x) && x@ == e,
        });
        r
    }
}

/// Checks the signature of a commit against the public key that the store
/// has for its signer.
pub fn check_signature<S: Storelike>(store: &S, commit: &Commit) -> (r: Result<(), AtomicError>)
    ensures
        match signature_fault(store.resources(), commit@) {
            None => r is Ok,
            Some(e) => r matches Err(x) && x@ == e,
        },
{
    let agent = match store.get_resource(commit.signer.as_str()) {
        Ok(agent) => agent,
        Err(_) => {
            return Err(AtomicError::Unauthorized(commit.signer.clone()));
        },
    };
    let key = match agent.get(urls::PUBLIC_KEY) {
        Ok(key) => key.to_string(),
        Err(_) => {
            return Err(AtomicError::Unauthorized(commit.signer.clone()));
        },
    };
    let public_key = match decode_base64(key.as_str()) {
        Some(public_key) => public_key,
        None => {
            return Err(AtomicError::Unauthorized(commit.signer.clone()));
        },
    };
    let signature = match decode_base64(commit.signature.as_str()) {
        Some(signature) => signature,
        None => {
            return Err(AtomicError::InvalidSignature);
        },
    };
    let message = commit.serialize_deterministically();
    let bytes = message.as_str().as_bytes_vec();
    if verifies(&public_key, &bytes, &signature) {
        Ok(())
    } else {
        Err(AtomicError::InvalidSignature)
    }
}

/// Asks whether the signer may make the commit, where it is made on
/// behalf of an agent.
fn check_write_right<S: Storelike>(
    store: &S,
    commit: &Commit,
    existing: &Option<Resource>,
    for_agent: Option<&str>,
) -> (r: Result<(), AtomicError>)
    requires
        match find_resource(store.resources(), commit@.subject) {
            Some(v) => *existing matches Some(x) && x@ == v,
            None => *existing is None,
        },
    ensures
        match write_fault(store.resources(), store.base_url(), commit@, option_text(for_agent)) {
            None => r is Ok,
            Some(e) => r matches Err(x) && x@ == e,
        },
{
    if for_agent.is_none() {
        return Ok(());
    }
    let target = match existing {
        Some(r) => r.clone(),
        None => {
            let parent = match commit.last_set(urls::PARENT) {
                Some(parent) => parent,
                None => store.get_base_url().to_owned(),
            };
            match store.get_resource(parent.as_str()) {
                Ok(r) => r,
                Err(_) => {
                    return Err(AtomicError::Unauthorized(commit.subject.clone()));
                },
            }
        },
    };
    match store.check_rights(&target, commit.signer.as_str(), Right::Write, MAX_DEPTH) {
        Ok(true) => Ok(()),
        Ok(false) => Err(AtomicError::Unauthorized(commit.subject.clone())),
        Err(e) => Err(e),
    }
}

/// Applies a commit whose signature was found good. Either the store
/// holds the outcome, or it is as it was and the error says why. An index
/// that was current stays current: it follows the change in the same
/// step.
pub fn apply_changes<S: Storelike>(store: &mut S, commit: &Commit, for_agent: Option<&str>) -> (r:
    Result<Resource, AtomicError>)
    ensures
        final(store).base_url() == old(store).base_url(),
        final(store).self_url() == old(store).self_url(),
        final(store).default_agent() == old(store).default_agent(),
        final(store).index_scope() == old(store).index_scope(),
        match commit_outcome(
            old(store).resources(),
            old(store).base_url(),
            commit@,
            option_text(for_agent),
        ) {
            Ok(outcome) => r matches Ok(x) && x@ == outcome.1 && final(store).resources()
                == outcome.0,
            Err(e) => r matches Err(x) && x@ == e && final(store).resources() == old(store).resources(),
        },
{
    let ghost rs = store.resources();
    let existing: Option<Resource> = match store.get_resource(commit.subject.as_str()) {
        Ok(r) => Some(r),
        Err(_) => None,
    };
    let head: Option<String> = match &existing {
        Some(r) => r.get_head(),
        None => None,
    };
    if !same_option(&head, &commit.previous_commit) {
        return Err(AtomicError::Conflict);
    }
    match check_write_right(&*store, commit, &existing, for_agent) {
        Ok(_) => {},
        Err(e) => {
            return Err(e);
        },
    }
    if commit.destroy {
        return match existing {
            None => Err(AtomicError::NotFound(commit.subject.clone())),
            Some(r) => {
                let _ = store.remove_resource(commit.subject.as_str());
                Ok(r)
            },
        };
    }
    match store.check_entries(&commit.set) {
        Ok(_) => {},
        Err(e) => {
            return Err(e);
        },
    }
    let mut next = match existing {
        Some(r) => r,
        None => Resource::new(commit.subject.clone()),
    };
    let ghost start = next@.propvals;
    let ghost set = propval_views(commit.set@);
    let mut i: usize = 0;
    assert(set.take(0) =~= Seq::empty());
    while i < commit.set.len()
        invariant
            i <= commit.set@.len(),
            set == propval_views(commit.set@),
            next@.subject == commit@.subject,
            next@.propvals == set_all(start, set.take(i as int)),
        decreases commit.set@.len() - i,
    {
        proof {
            assert(set.take(i + 1).drop_last() =~= set.take(i as int));
            assert(set.take(i + 1).last() == commit.set@[i as int]@);
        }
        next.set_propval_unsafe(commit.set[i].property.clone(), commit.set[i].value.clone());
        i = i + 1;
    }
    assert(set.take(i as int) =~= set);
    let ghost middle = next@.propvals;
    let ghost removed = views(commit.remove@);
    let mut j: usize = 0;
    assert(removed.take(0) =~= Seq::empty());
    while j < commit.remove.len()
        invariant
            j <= commit.remove@.len(),
            removed == views(commit.remove@),
            next@.subject == commit@.subject,
            next@.propvals == remove_all(middle, removed.take(j as int)),
        decreases commit.remove@.len() - j,
    {
        proof {
            assert(removed.take(j + 1).drop_last() =~= removed.take(j as int));
            assert(removed.take(j + 1).last() == commit.remove@[j as int]@);
        }
        next.remove_propval(commit.remove[j].as_str());
        j = j + 1;
    }
    assert(removed.take(j as int) =~= removed);
    next.set_head(Some(commit.signature.clone()));
    assert(next@ == changed_resource(rs, commit@));
    match store.check_required_props(&next) {
        Ok(_) => {},
        Err(e) => {
            return Err(e);
        },
    }
    let _ = store.add_resource_opts(&next, false, true, true);
    Ok(next)
}

/// Applies a commit to a store, on behalf of `for_agent`.
///
/// The signer must be an agent of the store with a public key under which
/// the signature verifies. The commit must follow the subject's head.
/// Where `for_agent` is given, the signer must have the right to write;
/// without it no right is asked. The
/// entries must fit their properties, and the changed resource must have
/// what its classes require. A commit that fails any of this leaves the
/// store as it was. An index that was current stays current.
pub fn apply_commit<S: Storelike>(store: &mut S, commit: &Commit, for_agent: Option<&str>) -> (r:
    Result<Resource, AtomicError>)
    ensures
        final(store).base_url() == old(store).base_url(),
        final(store).self_url() == old(store).self_url(),
        final(store).default_agent() == old(store).default_agent(),
        final(store).index_scope() == old(store).index_scope(),
        match apply_outcome(
            old(store).resources(),
            old(store).base_url(),
            commit@,
            option_text(for_agent),
        ) {
            Ok(outcome) => r matches Ok(x) && x@ == outcome.1 && final(store).resources()
                == outcome.0,
            Err(e) => r matches Err(x) && x@ == e && final(store).resources() == old(store).resources(),
        },
{
    match check_signature(&*store, commit) {
        Ok(_) => apply_changes(store, commit, for_agent),
        Err(e) => Err(e),
    }
}

} // verus!
