//! What the server sends and what the client asks for.
use vstd::prelude::*;

use crate::bounded::BoundedString;
use crate::collections::NatsCollections;
use crate::limits::INFO_METADATA_STR_SIZE;

verus! {

/// A message of a subscription.
pub struct NatsMsg<C: NatsCollections> {
    /// The number of the subscription.
    pub sid: usize,
    /// The topic that the message was published under.
    pub topic: C::Topic,
    /// The payload.
    pub data: C::MsgBuf,
}

/// What a server says about itself.
pub struct NatsInfoMsg {
    pub server_id: BoundedString<INFO_METADATA_STR_SIZE>,
    pub server_name: BoundedString<INFO_METADATA_STR_SIZE>,
    pub version: BoundedString<INFO_METADATA_STR_SIZE>,
    pub go: BoundedString<INFO_METADATA_STR_SIZE>,
    pub host: BoundedString<INFO_METADATA_STR_SIZE>,
    pub port: i32,
    pub headers: bool,
    pub max_payload: i32,
    pub proto: i32,
}

impl NatsInfoMsg {
    /// Whether two messages say the same.
    pub open spec fn same(self, other: Self) -> bool {
        &&& self.server_id@ == other.server_id@
        &&& self.server_name@ == other.server_name@
        &&& self.version@ == other.version@
        &&& self.go@ == other.go@
        &&& self.host@ == other.host@
        &&& self.port == other.port
        &&& self.headers == other.headers
        &&& self.max_payload == other.max_payload
        &&& self.proto == other.proto
    }
}

impl Clone for NatsInfoMsg {
    fn clone(&self) -> (r: Self)
        ensures
            r.same(*self),
            r.server_id@ == self.server_id@,
            r.server_name@ == self.server_name@,
            r.version@ == self.version@,
            r.go@ == self.go@,
            r.host@ == self.host@,
            r.port == self.port,
            r.headers == self.headers,
            r.max_payload == self.max_payload,
            r.proto == self.proto,
    {
        NatsInfoMsg {
            server_id: self.server_id.clone(),
            server_name: self.server_name.clone(),
            version: self.version.clone(),
            go: self.go.clone(),
            host: self.host.clone(),
            port: self.port,
            headers: self.headers,
            max_payload: self.max_payload,
            proto: self.proto,
        }
    }
}

/// What a client asks of the runner; `S` is where the messages of a subscription go.
pub enum InternalCmd<C: NatsCollections, S> {
    /// Publish a payload under a topic.
    Pub(C::Topic, C::MsgBuf),
    /// Subscribe to a topic.
    Sub(C::Topic, S),
}

} // verus!
