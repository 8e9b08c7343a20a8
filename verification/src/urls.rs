//! The well-known URLs that the store assumes.

use vstd::prelude::*;

verus! {

pub const CLASS: &'static str = "https://atomicdata.dev/classes/Class";

pub const PROPERTY: &'static str = "https://atomicdata.dev/classes/Property";

pub const AGENT: &'static str = "https://atomicdata.dev/classes/Agent";

pub const COMMIT: &'static str = "https://atomicdata.dev/classes/Commit";

pub const IS_A: &'static str = "https://atomicdata.dev/properties/isA";

pub const SHORTNAME: &'static str = "https://atomicdata.dev/properties/shortname";

pub const DESCRIPTION: &'static str = "https://atomicdata.dev/properties/description";

pub const DATATYPE_PROP: &'static str = "https://atomicdata.dev/properties/datatype";

pub const CLASSTYPE_PROP: &'static str = "https://atomicdata.dev/properties/classtype";

pub const REQUIRES: &'static str = "https://atomicdata.dev/properties/requires";

pub const RECOMMENDS: &'static str = "https://atomicdata.dev/properties/recommends";

pub const PARENT: &'static str = "https://atomicdata.dev/properties/parent";

pub const READ: &'static str = "https://atomicdata.dev/properties/read";

pub const WRITE: &'static str = "https://atomicdata.dev/properties/write";

pub const NAME: &'static str = "https://atomicdata.dev/properties/name";

pub const PUBLIC_KEY: &'static str = "https://atomicdata.dev/properties/publicKey";

pub const CREATED_AT: &'static str = "https://atomicdata.dev/properties/createdAt";

pub const PUBLIC_AGENT: &'static str = "https://atomicdata.dev/agents/publicAgent";

pub const ATOMIC_URL: &'static str = "https://atomicdata.dev/datatypes/atomicURL";

pub const BOOLEAN: &'static str = "https://atomicdata.dev/datatypes/boolean";

pub const DATE: &'static str = "https://atomicdata.dev/datatypes/date";

pub const FLOAT: &'static str = "https://atomicdata.dev/datatypes/float";

pub const INTEGER: &'static str = "https://atomicdata.dev/datatypes/integer";

pub const MARKDOWN: &'static str = "https://atomicdata.dev/datatypes/markdown";

pub const RESOURCE_ARRAY: &'static str = "https://atomicdata.dev/datatypes/resourceArray";

pub const SLUG: &'static str = "https://atomicdata.dev/datatypes/slug";

pub const STRING: &'static str = "https://atomicdata.dev/datatypes/string";

pub const TIMESTAMP: &'static str = "https://atomicdata.dev/datatypes/timestamp";

pub const DATATYPE: &'static str = "https://atomicdata.dev/classes/Datatype";

pub const COLLECTION: &'static str = "https://atomicdata.dev/classes/Collection";

pub const DRIVE: &'static str = "https://atomicdata.dev/classes/Drive";

pub const ENDPOINT: &'static str = "https://atomicdata.dev/classes/Endpoint";

pub const INVITE: &'static str = "https://atomicdata.dev/classes/Invite";

pub const REDIRECT: &'static str = "https://atomicdata.dev/classes/Redirect";

pub const DOCUMENT: &'static str = "https://atomicdata.dev/classes/Document";

pub const PARAGRAPH: &'static str = "https://atomicdata.dev/classes/elements/Paragraph";

pub const FILE: &'static str = "https://atomicdata.dev/classes/File";

pub const BOOKMARK: &'static str = "https://atomicdata.dev/class/Bookmark";

pub const SUBJECT: &'static str = "https://atomicdata.dev/properties/subject";

pub const SIGNER: &'static str = "https://atomicdata.dev/properties/signer";

pub const SIGNATURE: &'static str = "https://atomicdata.dev/properties/signature";

pub const PREVIOUS_COMMIT: &'static str = "https://atomicdata.dev/properties/previousCommit";

pub const LAST_COMMIT: &'static str = "https://atomicdata.dev/properties/lastCommit";

pub const DESTROY: &'static str = "https://atomicdata.dev/properties/destroy";

pub const REMOVE: &'static str = "https://atomicdata.dev/properties/remove";

pub const CHILDREN: &'static str = "https://atomicdata.dev/properties/children";

pub const DESTINATION: &'static str = "https://atomicdata.dev/properties/destination";

pub const COLLECTION_MEMBERS: &'static str = "https://atomicdata.dev/properties/collection/members";

pub const COLLECTION_PROPERTY: &'static str = "https://atomicdata.dev/properties/collection/property";

pub const COLLECTION_VALUE: &'static str = "https://atomicdata.dev/properties/collection/value";

pub const ENDPOINT_PARAMETERS: &'static str = "https://atomicdata.dev/properties/endpoint/parameters";

pub const INVITE_TARGET: &'static str = "https://atomicdata.dev/properties/invite/target";

pub const INVITE_USAGES_LEFT: &'static str = "https://atomicdata.dev/properties/invite/usagesLeft";

pub const DOCUMENT_ELEMENTS: &'static str = "https://atomicdata.dev/properties/documents/elements";

pub const DOWNLOAD_URL: &'static str = "https://atomicdata.dev/properties/downloadURL";

pub const MIMETYPE: &'static str = "https://atomicdata.dev/properties/mimetype";

pub const URL_PROP: &'static str = "https://atomicdata.dev/property/url";

} // verus!
