use vstd::prelude::*;
use vstd::string::StringSliceAdditionalSpecFns;

verus! {

/// The lowest protocol version this relay speaks.
pub const MIN_VERSION: i64 = 1;

/// The highest protocol version this relay speaks.
pub const MAX_VERSION: i64 = 2;

/// The reply to a client whose hello was accepted.
pub const JOINED_REPLY: &'static str = "{\"type\":\"joined\"}";

/// The reply to a client whose hello was missing, malformed or late.
pub const REJECTED_REPLY: &'static str = "{\"type\":\"error\",\"message\":\"invalid handshake\"}";

/// The reply to a client that asked for a protocol version outside the range.
pub const UNSUPPORTED_REPLY: &'static str = "{\"type\":\"error\",\"message\":\"unsupported protocol version\"}";

/// The part a client plays in its session.
#[derive(Clone, Copy, Debug, PartialEq, Eq, Structural)]
pub enum Role {
    /// Controls the other members.
    Master,
    /// Is controlled by a master.
    Slave,
}

/// Why a connection's first frame was not accepted as a hello.
#[derive(Clone, Copy, Debug, PartialEq, Eq, Structural)]
pub enum HandshakeError {
    /// The frame was not JSON, lacked a required field, or did not arrive in time.
    HandshakeRejected,
    /// The requested protocol version lies outside `MIN_VERSION..=MAX_VERSION`.
    UnsupportedVersion,
}

/// A validated hello: who the client is and which session it asks for.
pub struct Hello {
    pub role: Role,
    pub key: Vec<u8>,
    pub version: u64,
}

/// A hello as mathematical values.
pub struct HelloView {
    pub role: Role,
    pub key: Seq<u8>,
    pub version: u64,
}

impl View for Hello {
    type V = HelloView;

    open spec fn view(&self) -> HelloView {
        HelloView { role: self.role, key: self.key@, version: self.version }
    }
}

/// Whether serde_json accepts `b` as one JSON document.
pub uninterp spec fn is_json(b: Seq<u8>) -> bool;

/// The UTF-8 bytes of the string held under `key` in the JSON object `b`,
/// when `b` is such an object and that member is a string.
pub uninterp spec fn text_member(b: Seq<u8>, key: Seq<char>) -> Option<Seq<u8>>;

/// The integer held under `key` in the JSON object `b`, when `b` is such an
/// object and that member is an integer that fits in an `i64`.
pub uninterp spec fn int_member(b: Seq<u8>, key: Seq<char>) -> Option<int>;

/// An optional byte string as a sequence.
pub open spec fn bytes_view(o: Option<Vec<u8>>) -> Option<Seq<u8>> {
    match o {
        Some(v) => Some(v@),
        None => None,
    }
}

/// An optional `i64` as a mathematical integer.
pub open spec fn int_view(o: Option<i64>) -> Option<int> {
    match o {
        Some(v) => Some(v as int),
        None => None,
    }
}

/// Relies on serde_json::from_slice into a serde_json::Value: it succeeds
/// exactly on valid JSON text.
#[verifier::external_body]
pub(crate) fn json_valid(b: &[u8]) -> (r: bool)
    ensures
        r == is_json(b@),
{
    serde_json::from_slice::<serde_json::Value>(b).is_ok()
}

/// Relies on serde_json::from_slice, serde_json::Value::get and
/// serde_json::Value::as_str: reads one string member of a JSON object.
#[verifier::external_body]
fn member_text(b: &[u8], key: &str) -> (r: Option<Vec<u8>>)
    ensures
        bytes_view(r) == text_member(b@, key@),
{
    let v: serde_json::Value = serde_json::from_slice(b).ok()?;
    let s = v.get(key)?.as_str()?;
    Some(s.as_bytes().to_vec())
}

/// Relies on serde_json::from_slice, serde_json::Value::get and
/// serde_json::Value::as_i64: reads one integer member of a JSON object.
#[verifier::external_body]
fn member_int(b: &[u8], key: &str) -> (r: Option<i64>)
    ensures
        int_view(r) == int_member(b@, key@),
{
    let v: serde_json::Value = serde_json::from_slice(b).ok()?;
    v.get(key)?.as_i64()
}

/// Whether two byte strings are equal.
pub fn bytes_eq(a: &[u8], b: &[u8]) -> (r: bool)
    ensures
        r == (a@ == b@),
{
    if a.len() != b.len() {
        return false;
    }
    let mut i: usize = 0;
    while i < a.len()
        invariant
            a@.len() == b@.len(),
            i <= a@.len(),
            forall|j: int| 0 <= j < i ==> a@[j] == b@[j],
        decreases a@.len() - i,
    {
        if a[i] != b[i] {
            return false;
        }
        i = i + 1;
    }
    proof {
        assert(a@ =~= b@);
    }
    true
}

/// The role a hello's `role` member names, if it names one.
pub open spec fn role_of(r: Seq<u8>) -> Option<Role> {
    if r == "master".spec_bytes() {
        Some(Role::Master)
    } else if r == "slave".spec_bytes() {
        Some(Role::Slave)
    } else {
        None
    }
}

/// What a hello with these members amounts to: each required member must be
/// present and well formed, else the hello is rejected; a version outside the
/// supported range is refused on its own account.
pub open spec fn hello_outcome(
    kind: Option<Seq<u8>>,
    role: Option<Seq<u8>>,
    channel: Option<Seq<u8>>,
    version: Option<int>,
) -> Result<HelloView, HandshakeError> {
    if !(kind == Some("join".spec_bytes())) || role is None || role_of(role->Some_0) is None
        || channel is None || version is None {
        Err(HandshakeError::HandshakeRejected)
    } else if !(MIN_VERSION <= version->Some_0 <= MAX_VERSION) {
        Err(HandshakeError::UnsupportedVersion)
    } else {
        Ok(HelloView {
            role: role_of(role->Some_0)->Some_0,
            key: channel->Some_0,
            version: version->Some_0 as u64,
        })
    }
}

/// What the frame `line` amounts to as a hello.
pub open spec fn hello_of_line(line: Seq<u8>) -> Result<HelloView, HandshakeError> {
    hello_outcome(
        text_member(line, "type"@),
        text_member(line, "role"@),
        text_member(line, "channel"@),
        int_member(line, "version"@),
    )
}

/// A handshake outcome as mathematical values.
pub open spec fn outcome_view(r: Result<Hello, HandshakeError>) -> Result<HelloView, HandshakeError> {
    match r {
        Ok(h) => Ok(h@),
        Err(e) => Err(e),
    }
}

/// Decides a hello from its members as read from the frame.
pub fn check_hello(
    kind: Option<Vec<u8>>,
    role: Option<Vec<u8>>,
    channel: Option<Vec<u8>>,
    version: Option<i64>,
) -> (r: Result<Hello, HandshakeError>)
    ensures
        outcome_view(r) == hello_outcome(bytes_view(kind), bytes_view(role), bytes_view(channel), int_view(version)),
{
    let is_join = match &kind {
        Some(k) => bytes_eq(k.as_slice(), "join".as_bytes()),
        None => false,
    };
    if !is_join {
        return Err(HandshakeError::HandshakeRejected);
    }
    let parsed_role = match &role {
        Some(r) => {
            if bytes_eq(r.as_slice(), "master".as_bytes()) {
                Some(Role::Master)
            } else if bytes_eq(r.as_slice(), "slave".as_bytes()) {
                Some(Role::Slave)
            } else {
                None
            }
        },
        None => None,
    };
    let role_value = match parsed_role {
        Some(x) => x,
        None => {
            return Err(HandshakeError::HandshakeRejected);
        },
    };
    let key = match channel {
        Some(c) => c,
        None => {
            return Err(HandshakeError::HandshakeRejected);
        },
    };
    let v = match version {
        Some(v) => v,
        None => {
            return Err(HandshakeError::HandshakeRejected);
        },
    };
    if v < MIN_VERSION || v > MAX_VERSION {
        return Err(HandshakeError::UnsupportedVersion);
    }
    Ok(Hello { role: role_value, key, version: v as u64 })
}

/// Reads a connection's first frame as a hello.
pub fn negotiate(line: &[u8]) -> (r: Result<Hello, HandshakeError>)
    ensures
        outcome_view(r) == hello_of_line(line@),
{
    let kind = member_text(line, "type");
    let role = member_text(line, "role");
    let channel = member_text(line, "channel");
    let version = member_int(line, "version");
    check_hello(kind, role, channel, version)
}

/// The frame that answers a hello, accepted or not.
pub fn hello_reply(r: &Result<Hello, HandshakeError>) -> (s: &'static str)
    ensures
        s == match r {
            Ok(_) => JOINED_REPLY,
            Err(HandshakeError::HandshakeRejected) => REJECTED_REPLY,
            Err(HandshakeError::UnsupportedVersion) => UNSUPPORTED_REPLY,
        },
{
    match r {
        Ok(_) => JOINED_REPLY,
        Err(HandshakeError::HandshakeRejected) => REJECTED_REPLY,
        Err(HandshakeError::UnsupportedVersion) => UNSUPPORTED_REPLY,
    }
}

} // verus!
