//! The declared MQTT clients, by slug.

use indexmap::IndexMap;
use vstd::prelude::*;

use crate::model::Urgency;

verus! {

/// What boot reads of a declared MQTT client.
#[derive(Clone, Copy, Debug, PartialEq, Eq, Structural)]
pub struct MqttClient {
    /// The urgency of everything the client's broker delivers.
    pub urgency: Urgency,
}

/// The declared clients by slug.
pub uninterp spec fn client_map(clients: IndexMap<String, MqttClient>) -> Map<
    Seq<char>,
    MqttClient,
>;

/// `IndexMap::get`: the client kept under the slug, where the map has the slug.
#[verifier::external_body]
pub(crate) fn find_client(clients: &IndexMap<String, MqttClient>, slug: &str) -> (client: Option<
    MqttClient,
>)
    ensures
        client is Some <==> client_map(*clients).contains_key(slug@),
        client matches Some(c) ==> c == client_map(*clients)[slug@],
{
    clients.get(slug).copied()
}

} // verus!
