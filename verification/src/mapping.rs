//! Short names for URLs, as a user keeps them.

use vstd::prelude::*;

use crate::text::{has_prefix, starts_with};
use crate::urls;

verus! {

/// One entry of a mapping: a short name and the URL that it stands for.
#[derive(Debug)]
pub struct Bookmark {
    pub shortname: String,
    pub url: String,
}

/// The map that a row of entries makes: a later entry replaces an earlier
/// one of the same short name.
pub open spec fn entries_map(entries: Seq<Bookmark>) -> Map<Seq<char>, Seq<char>>
    decreases entries.len(),
{
    if entries.len() == 0 {
        Map::empty()
    } else {
        entries_map(entries.drop_last()).insert(entries.last().shortname@, entries.last().url@)
    }
}

/// Whether `s` has the shape of a URL.
pub open spec fn looks_like_url(s: Seq<char>) -> bool {
    has_prefix(s, "http"@) || has_prefix(s, "_:"@)
}

/// The URL that `token` stands for: what the mapping gives it, else the
/// token itself where it has the shape of a URL.
pub open spec fn mapping_or_url(m: Map<Seq<char>, Seq<char>>, token: Seq<char>) -> Option<
    Seq<char>,
> {
    if m.contains_key(token) {
        Some(m[token])
    } else if looks_like_url(token) {
        Some(token)
    } else {
        None
    }
}

/// The map with the short names of the core vocabulary added.
pub open spec fn with_core_names(m: Map<Seq<char>, Seq<char>>) -> Map<Seq<char>, Seq<char>> {
    m.insert("shortname"@, urls::SHORTNAME@).insert("description"@, urls::DESCRIPTION@).insert(
        "is-a"@,
        urls::IS_A@,
    ).insert("datatype"@, urls::DATATYPE_PROP@).insert("parent"@, urls::PARENT@).insert(
        "read"@,
        urls::READ@,
    ).insert("write"@, urls::WRITE@).insert("class"@, urls::CLASS@).insert(
        "property"@,
        urls::PROPERTY@,
    ).insert("agent"@, urls::AGENT@)
}

/// Whether `s` has the shape of a URL.
pub fn is_url(s: &str) -> (r: bool)
    ensures
        r == looks_like_url(s@),
{
    starts_with(s, "http") || starts_with(s, "_:")
}

/// A mapping from short names to URLs.
#[derive(Debug)]
pub struct Mapping {
    entries: Vec<Bookmark>,
}

impl View for Mapping {
    type V = Map<Seq<char>, Seq<char>>;

    closed spec fn view(&self) -> Map<Seq<char>, Seq<char>> {
        entries_map(self.entries@)
    }
}

impl Mapping {
    /// A mapping without entries.
    pub fn init() -> (r: Mapping)
        ensures
            r@ == Map::<Seq<char>, Seq<char>>::empty(),
    {
        Mapping { entries: Vec::new() }
    }

    /// Lets `shortname` stand for `url`.
    pub fn insert(&mut self, shortname: String, url: String)
        ensures
            final(self)@ == old(self)@.insert(shortname@, url@),
    {
        let ghost before = self.entries@;
        self.entries.push(Bookmark { shortname, url });
        assert(self.entries@.drop_last() =~= before);
    }

    /// Adds the short names of the core vocabulary.
    pub fn populate(&mut self)
        ensures
            final(self)@ == with_core_names(old(self)@),
    {
        self.insert("shortname".to_owned(), urls::SHORTNAME.to_owned());
        self.insert("description".to_owned(), urls::DESCRIPTION.to_owned());
        self.insert("is-a".to_owned(), urls::IS_A.to_owned());
        self.insert("datatype".to_owned(), urls::DATATYPE_PROP.to_owned());
        self.insert("parent".to_owned(), urls::PARENT.to_owned());
        self.insert("read".to_owned(), urls::READ.to_owned());
        self.insert("write".to_owned(), urls::WRITE.to_owned());
        self.insert("class".to_owned(), urls::CLASS.to_owned());
        self.insert("property".to_owned(), urls::PROPERTY.to_owned());
        self.insert("agent".to_owned(), urls::AGENT.to_owned());
    }

    /// The entries, in the order in which they were made.
    pub fn entries(&self) -> (r: &Vec<Bookmark>)
        ensures
            entries_map(r@) == self@,
    {
        &self.entries
    }

    /// The URL that `shortname` stands for.
    pub fn get(&self, shortname: &str) -> (r: Option<&String>)
        ensures
            match r {
                Some(url) => self@.contains_key(shortname@) && self@[shortname@] == url@,
                None => !self@.contains_key(shortname@),
            },
    {
        let key = shortname.to_owned();
        let mut i: usize = self.entries.len();
        assert(self.entries@.take(i as int) =~= self.entries@);
        while i > 0
            invariant
                i <= self.entries@.len(),
                key@ == shortname@,
                entries_map(self.entries@.take(i as int)).contains_key(shortname@)
                    == entries_map(self.entries@).contains_key(shortname@),
                entries_map(self.entries@).contains_key(shortname@) ==> entries_map(
                    self.entries@.take(i as int),
                )[shortname@] == entries_map(self.entries@)[shortname@],
            decreases i,
        {
            let ghost prefix = self.entries@.take(i as int);
            assert(prefix.drop_last() =~= self.entries@.take(i - 1));
            assert(prefix.last() == self.entries@[i - 1]);
            i = i - 1;
            if self.entries[i].shortname == key {
                return Some(&self.entries[i].url);
            }
        }
        None
    }

    /// Whether `shortname` stands for a URL.
    pub fn contains_key(&self, shortname: &str) -> (r: bool)
        ensures
            r == self@.contains_key(shortname@),
    {
        self.get(shortname).is_some()
    }

    /// The URL that `token` stands for: what the mapping gives it, else
    /// the token itself where it has the shape of a URL.
    pub fn try_mapping_or_url(&self, token: &str) -> (r: Option<String>)
        ensures
            match mapping_or_url(self@, token@) {
                Some(url) => r matches Some(x) && x@ == url,
                None => r is None,
            },
    {
        match self.get(token) {
            Some(url) => Some(url.clone()),
            None => if is_url(token) {
                Some(token.to_owned())
            } else {
                None
            },
        }
    }
}

} // verus!
