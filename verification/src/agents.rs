//! Agents: the identities that sign commits.

use vstd::prelude::*;
use vstd::string::StringExecFns;

use crate::crypto::{
    base64_bytes, base64_text, decode_base64, ed25519_public_key, encode_base64, public_key_for,
};
use crate::errors::{AtomicError, ErrorView};
use crate::resources::{upsert, Resource, ResourceView};
use crate::urls;
use crate::values::{Value, ValueView};

verus! {


/// An identity: a subject and a key pair, of which the private half is
/// there only for an agent that can sign.
#[derive(Debug)]
pub struct Agent {
    pub subject: String,
    pub public_key: String,
    pub private_key: Option<String>,
    pub name: Option<String>,
    pub created_at: i64,
}

/// An agent, with texts as sequences of characters.
pub struct AgentView {
    pub subject: Seq<char>,
    pub public_key: Seq<char>,
    pub private_key: Option<Seq<char>>,
    pub name: Option<Seq<char>>,
    pub created_at: i64,
}

/// The text that an optional string holds.
pub open spec fn option_view(o: Option<String>) -> Option<Seq<char>> {
    match o {
        Some(s) => Some(s@),
        None => None,
    }
}

/// The text that an optional borrowed string holds.
pub open spec fn option_text(o: Option<&str>) -> Option<Seq<char>> {
    match o {
        Some(s) => Some(s@),
        None => None,
    }
}

impl View for Agent {
    type V = AgentView;

    open spec fn view(&self) -> AgentView {
        AgentView {
            subject: self.subject@,
            public_key: self.public_key@,
            private_key: option_view(self.private_key),
            name: option_view(self.name),
            created_at: self.created_at,
        }
    }
}

/// A copy of an optional string.
pub fn clone_option(o: &Option<String>) -> (r: Option<String>)
    ensures
        option_view(r) == option_view(*o),
{
    match o {
        Some(s) => Some(s.clone()),
        None => None,
    }
}

/// The path under which a store keeps its agents.
pub open spec fn agents_path() -> Seq<char> {
    seq!['/', 'a', 'g', 'e', 'n', 't', 's', '/']
}

/// The agent that a private key makes under `base`: its public key is the
/// one that belongs to the private key, and its subject is the base URL,
/// the path of the agents and the public key. A private key that cannot
/// be read, or that is not 32 bytes long, is a validation error that
/// holds the public-key property.
pub open spec fn agent_from_key(
    name: Option<Seq<char>>,
    base: Seq<char>,
    private_key: Seq<char>,
    created_at: i64,
) -> Result<AgentView, ErrorView> {
    match base64_bytes(private_key) {
        None => Err(ErrorView::Validation(urls::PUBLIC_KEY@)),
        Some(secret) => match ed25519_public_key(secret) {
            None => Err(ErrorView::Validation(urls::PUBLIC_KEY@)),
            Some(public) => Ok(
                AgentView {
                    subject: base + agents_path() + base64_text(public),
                    public_key: base64_text(public),
                    private_key: Some(private_key),
                    name,
                    created_at,
                },
            ),
        },
    }
}

/// The resource that describes an agent: its class, its name where it
/// has one, its public key and the time of its creation.
pub open spec fn agent_resource(a: AgentView) -> ResourceView {
    let class = upsert(
        Seq::empty(),
        urls::IS_A@,
        ValueView::ResourceArray(seq![urls::AGENT@]),
    );
    let named = match a.name {
        Some(n) => upsert(class, urls::NAME@, ValueView::String(n)),
        None => class,
    };
    let keyed = upsert(named, urls::PUBLIC_KEY@, ValueView::String(a.public_key));
    ResourceView {
        subject: a.subject,
        propvals: upsert(keyed, urls::CREATED_AT@, ValueView::Timestamp(a.created_at)),
        head: None,
    }
}

impl Agent {
    /// The agent that `private_key` makes under `base_url`.
    pub fn from_private_key(
        name: Option<String>,
        base_url: &str,
        private_key: &str,
        created_at: i64,
    ) -> (r: Result<Agent, AtomicError>)
        ensures
            match agent_from_key(option_view(name), base_url@, private_key@, created_at) {
                Ok(a) => r matches Ok(x) && x@ == a,
                Err(e) => r matches Err(x) && x@ == e,
            },
    {
        let secret = match decode_base64(private_key) {
            Some(secret) => secret,
            None => {
                return Err(AtomicError::Validation(urls::PUBLIC_KEY.to_owned()));
            },
        };
        let public = match public_key_for(&secret) {
            Some(public) => public,
            None => {
                return Err(AtomicError::Validation(urls::PUBLIC_KEY.to_owned()));
            },
        };
        let public_key = encode_base64(&public);
        proof {
            reveal_strlit("/agents/");
            assert("/agents/"@ =~= agents_path());
        }
        let mut subject = base_url.to_owned();
        subject.append("/agents/");
        subject.append(public_key.as_str());
        Ok(
            Agent {
                subject,
                public_key,
                private_key: Some(private_key.to_owned()),
                name,
                created_at,
            },
        )
    }

    /// The resource that describes this agent.
    pub fn to_resource(&self) -> (r: Resource)
        ensures
            r@ == agent_resource(self@),
    {
        let mut r = Resource::new(self.subject.clone());
        let mut classes: Vec<String> = Vec::new();
        classes.push(urls::AGENT.to_owned());
        let class = Value::ResourceArray(classes);
        assert(class@ =~= ValueView::ResourceArray(seq![urls::AGENT@])) by {
            assert(crate::text::views(classes@) =~= seq![urls::AGENT@]);
        }
        r.set_propval_unsafe(urls::IS_A.to_owned(), class);
        match &self.name {
            Some(n) => {
                r.set_propval_unsafe(urls::NAME.to_owned(), Value::String(n.clone()));
            },
            None => {},
        }
        r.set_propval_unsafe(urls::PUBLIC_KEY.to_owned(), Value::String(self.public_key.clone()));
        r.set_propval_unsafe(urls::CREATED_AT.to_owned(), Value::Timestamp(self.created_at));
        r
    }
}

impl Clone for Agent {
    fn clone(&self) -> (r: Self)
        ensures
            r@ == self@,
    {
        Agent {
            subject: self.subject.clone(),
            public_key: self.public_key.clone(),
            private_key: clone_option(&self.private_key),
            name: clone_option(&self.name),
            created_at: self.created_at,
        }
    }
}

} // verus!
