//! Channel addresses: schemes, names, and the reserved page-local control planes.

use vstd::prelude::*;
use vstd::string::*;

use crate::text;
use crate::text::{has_prefix, same_text, strip_prefix};

verus! {

/// The transports a channel address can name.
#[derive(Clone, Copy, Debug, PartialEq, Eq, Structural)]
pub enum ChannelScheme {
    Brenn,
    Ephemeral,
    Local,
    Mqtt,
    Webhook,
}

/// The scheme prefix of durable bus channels.
pub const BRENN_ADDRESS_PREFIX: &'static str = "brenn:";

impl ChannelScheme {
    /// The prefix an address of this scheme begins with.
    pub open spec fn prefix_text(self) -> Seq<char> {
        match self {
            ChannelScheme::Brenn => "brenn:"@,
            ChannelScheme::Ephemeral => "ephemeral:"@,
            ChannelScheme::Local => "local:"@,
            ChannelScheme::Mqtt => "mqtt:"@,
            ChannelScheme::Webhook => "webhook:"@,
        }
    }

    /// The prefix an address of this scheme begins with.
    pub fn prefix(self) -> (p: &'static str)
        ensures
            p@ == self.prefix_text(),
    {
        match self {
            ChannelScheme::Brenn => "brenn:",
            ChannelScheme::Ephemeral => "ephemeral:",
            ChannelScheme::Local => "local:",
            ChannelScheme::Mqtt => "mqtt:",
            ChannelScheme::Webhook => "webhook:",
        }
    }

    /// Whether `address` is written in this scheme.
    pub open spec fn names(self, address: Seq<char>) -> bool {
        text::begins_with(address, self.prefix_text())
    }

    /// What `address` says behind this scheme's prefix.
    pub open spec fn name_in(self, address: Seq<char>) -> Seq<char> {
        text::after(address, self.prefix_text().len())
    }

    /// The scheme of `address` and the name behind it, where the address has a known scheme.
    pub fn split(address: &str) -> (parts: Option<(ChannelScheme, String)>)
        ensures
            parts matches Some(p) ==> p.0.names(address@) && p.1@ == p.0.name_in(address@),
            scheme_of(address@) == (match parts {
                Some(p) => Some(p.0),
                None => None,
            }),
    {
        if let Some(rest) = strip_prefix(address, ChannelScheme::Brenn.prefix()) {
            return Some((ChannelScheme::Brenn, rest));
        }
        if let Some(rest) = strip_prefix(address, ChannelScheme::Ephemeral.prefix()) {
            return Some((ChannelScheme::Ephemeral, rest));
        }
        if let Some(rest) = strip_prefix(address, ChannelScheme::Local.prefix()) {
            return Some((ChannelScheme::Local, rest));
        }
        if let Some(rest) = strip_prefix(address, ChannelScheme::Mqtt.prefix()) {
            return Some((ChannelScheme::Mqtt, rest));
        }
        if let Some(rest) = strip_prefix(address, ChannelScheme::Webhook.prefix()) {
            return Some((ChannelScheme::Webhook, rest));
        }
        None
    }
}

/// The scheme of an address, where it has a known one.
pub open spec fn scheme_of(address: Seq<char>) -> Option<ChannelScheme> {
    if ChannelScheme::Brenn.names(address) {
        Some(ChannelScheme::Brenn)
    } else if ChannelScheme::Ephemeral.names(address) {
        Some(ChannelScheme::Ephemeral)
    } else if ChannelScheme::Local.names(address) {
        Some(ChannelScheme::Local)
    } else if ChannelScheme::Mqtt.names(address) {
        Some(ChannelScheme::Mqtt)
    } else if ChannelScheme::Webhook.names(address) {
        Some(ChannelScheme::Webhook)
    } else {
        None
    }
}

/// No address is written in two schemes.
pub proof fn one_scheme_per_address(address: Seq<char>, a: ChannelScheme, b: ChannelScheme)
    requires
        a.names(address),
        b.names(address),
    ensures
        a == b,
        scheme_of(address) == Some(a),
{
    reveal_strlit("brenn:");
    reveal_strlit("ephemeral:");
    reveal_strlit("local:");
    reveal_strlit("mqtt:");
    reveal_strlit("webhook:");
    assert(forall|s: ChannelScheme| #[trigger] s.names(address) ==> address[0] == s.prefix_text()[0])
        by {
        assert forall|s: ChannelScheme| #[trigger] s.names(address) implies address[0]
            == s.prefix_text()[0] by {
            assert(address.subrange(0, s.prefix_text().len() as int)[0] == address[0]);
        }
    }
}

/// Whether `c` is an RFC 3986 unreserved character.
pub open spec fn unreserved(c: char) -> bool {
    ||| 'a' <= c <= 'z'
    ||| 'A' <= c <= 'Z'
    ||| '0' <= c <= '9'
    ||| c == '.'
    ||| c == '_'
    ||| c == '~'
    ||| c == '-'
}

/// Whether every character of `s` is unreserved.
pub open spec fn all_unreserved(s: Seq<char>) -> bool {
    forall|i: int| 0 <= i < s.len() ==> unreserved(#[trigger] s[i])
}

/// Whether `c` is an RFC 3986 unreserved character.
pub fn is_unreserved_char(c: char) -> (ok: bool)
    ensures
        ok == unreserved(c),
{
    ('a' <= c && c <= 'z') || ('A' <= c && c <= 'Z') || ('0' <= c && c <= '9') || c == '.' || c
        == '_' || c == '~' || c == '-'
}

/// Whether every character of `s` is unreserved.
pub fn is_unreserved(s: &str) -> (ok: bool)
    ensures
        ok == all_unreserved(s@),
{
    let n: usize = s.unicode_len();
    let mut i: usize = 0;
    while i < n
        invariant
            i <= n,
            n == s@.len(),
            forall|k: int| 0 <= k < i ==> unreserved(#[trigger] s@[k]),
        decreases n - i,
    {
        if !is_unreserved_char(s.get_char(i)) {
            return false;
        }
        i = i + 1;
    }
    true
}

/// Whether `c` may stand in a component kind.
pub open spec fn kind_char(c: char) -> bool {
    'a' <= c <= 'z' || '0' <= c <= '9' || c == '-'
}

/// Whether `s` can be a component kind or instance id: lower-case letters, digits and hyphens,
/// no hyphen at the front and no two hyphens in a row.
pub open spec fn kind_shaped(s: Seq<char>) -> bool {
    &&& s.len() > 0
    &&& forall|i: int| 0 <= i < s.len() ==> kind_char(#[trigger] s[i])
    &&& s[0] != '-'
    &&& forall|i: int| 0 <= i < s.len() - 1 ==> !(#[trigger] s[i] == '-' && s[i + 1] == '-')
}

/// Whether `s` can be a component kind or instance id.
pub fn is_valid_kind(s: &str) -> (ok: bool)
    ensures
        ok == kind_shaped(s@),
{
    let n: usize = s.unicode_len();
    if n == 0 {
        return false;
    }
    if s.get_char(0) == '-' {
        return false;
    }
    let mut i: usize = 0;
    while i < n
        invariant
            i <= n,
            n == s@.len(),
            forall|k: int| 0 <= k < i ==> kind_char(#[trigger] s@[k]),
            forall|k: int|
                0 <= k < i && k < s@.len() - 1 ==> !(#[trigger] s@[k] == '-' && s@[k + 1] == '-'),
        decreases n - i,
    {
        let c: char = s.get_char(i);
        if !(('a' <= c && c <= 'z') || ('0' <= c && c <= '9') || c == '-') {
            return false;
        }
        if c == '-' && i + 1 < n && s.get_char(i + 1) == '-' {
            assert(s@[i as int] == '-' && s@[i as int + 1] == '-');
            return false;
        }
        i = i + 1;
    }
    true
}

/// A control plane the surface kernel keeps in the page.
#[derive(Clone, Copy, Debug, PartialEq, Eq, Structural)]
pub struct ReservedLocalChannel {
    /// How many messages the plane replays to whoever attaches.
    pub ring_depth: u64,
    /// Whether binding the plane takes the surface's takeover grant.
    pub requires_takeover_grant: bool,
    /// Whether only the kernel may publish on the plane.
    pub kernel_publish_only: bool,
}

/// The control plane at `address`, where the address is one of the reserved ones.
pub open spec fn reserved_plane(address: Seq<char>) -> Option<ReservedLocalChannel> {
    if address == "local:brenn/theme"@ {
        Some(
            ReservedLocalChannel {
                ring_depth: 1,
                requires_takeover_grant: false,
                kernel_publish_only: false,
            },
        )
    } else if address == "local:brenn/takeover"@ {
        Some(
            ReservedLocalChannel {
                ring_depth: 1,
                requires_takeover_grant: true,
                kernel_publish_only: false,
            },
        )
    } else if address == "local:brenn/link-state"@ || address == "local:brenn/surface-state"@ {
        Some(
            ReservedLocalChannel {
                ring_depth: 1,
                requires_takeover_grant: false,
                kernel_publish_only: true,
            },
        )
    } else if address == "local:brenn/toast"@ {
        Some(
            ReservedLocalChannel {
                ring_depth: 0,
                requires_takeover_grant: false,
                kernel_publish_only: true,
            },
        )
    } else {
        None
    }
}

/// The control plane at `address`, where the address is one of the reserved ones.
pub fn reserved_local_channel(address: &str) -> (plane: Option<ReservedLocalChannel>)
    ensures
        plane == reserved_plane(address@),
{
    if same_text(address, "local:brenn/theme") {
        return Some(
            ReservedLocalChannel {
                ring_depth: 1,
                requires_takeover_grant: false,
                kernel_publish_only: false,
            },
        );
    }
    if same_text(address, "local:brenn/takeover") {
        return Some(
            ReservedLocalChannel {
                ring_depth: 1,
                requires_takeover_grant: true,
                kernel_publish_only: false,
            },
        );
    }
    if same_text(address, "local:brenn/link-state") || same_text(
        address,
        "local:brenn/surface-state",
    ) {
        return Some(
            ReservedLocalChannel {
                ring_depth: 1,
                requires_takeover_grant: false,
                kernel_publish_only: true,
            },
        );
    }
    if same_text(address, "local:brenn/toast") {
        return Some(
            ReservedLocalChannel {
                ring_depth: 0,
                requires_takeover_grant: false,
                kernel_publish_only: true,
            },
        );
    }
    None
}

/// Whether `address` lies in the namespace reserved for control planes.
pub open spec fn in_reserved_namespace(address: Seq<char>) -> bool {
    text::begins_with(address, "local:brenn/"@)
}

/// Whether `address` lies in the namespace reserved for control planes.
pub fn is_reserved_local_namespace(address: &str) -> (reserved: bool)
    ensures
        reserved == in_reserved_namespace(address@),
{
    has_prefix(address, "local:brenn/")
}

/// An operator-declared local channel, whose name holds unreserved characters only, never lies
/// in the namespace reserved for control planes.
pub proof fn declared_locals_avoid_the_reserved_namespace(address: Seq<char>)
    requires
        ChannelScheme::Local.names(address),
        all_unreserved(ChannelScheme::Local.name_in(address)),
    ensures
        !in_reserved_namespace(address),
        reserved_plane(address) is None,
{
    reveal_strlit("local:");
    reveal_strlit("local:brenn/");
    reveal_strlit("local:brenn/theme");
    reveal_strlit("local:brenn/takeover");
    reveal_strlit("local:brenn/link-state");
    reveal_strlit("local:brenn/surface-state");
    reveal_strlit("local:brenn/toast");
    let name = ChannelScheme::Local.name_in(address);
    if address.len() > 11 && address[11] == '/' {
        assert(name[5] == '/');
        assert(unreserved(name[5]));
    }
    if in_reserved_namespace(address) {
        assert(address.subrange(0, 12)[11] == address[11]);
    }
}

/// The client and the topic of an `mqtt:<client>:<topic>` address.
pub open spec fn mqtt_parts(address: Seq<char>, client: Seq<char>, topic: Seq<char>) -> bool {
    &&& address == "mqtt:"@ + client + seq![':'] + topic
    &&& client.len() > 0
    &&& topic.len() > 0
    &&& !client.contains(':')
}

/// An `mqtt:` address taken apart.
#[derive(Debug, PartialEq, Eq)]
pub struct MqttAddress {
    pub client: String,
    pub topic: String,
}

/// Take an `mqtt:<client>:<topic>` address apart.
pub fn split_mqtt_address(address: &str) -> (parts: Option<MqttAddress>)
    ensures
        parts matches Some(p) ==> mqtt_parts(address@, p.client@, p.topic@),
        parts is None ==> forall|c: Seq<char>, t: Seq<char>| !#[trigger] mqtt_parts(address@, c, t),
{
    let rest: String = match strip_prefix(address, ChannelScheme::Mqtt.prefix()) {
        Some(rest) => rest,
        None => {
            proof {
                assert forall|c: Seq<char>, t: Seq<char>| #[trigger]
                    mqtt_parts(address@, c, t) implies false by {
                    assert(address@.subrange(0, "mqtt:"@.len() as int) =~= "mqtt:"@);
                }
            }
            return None;
        },
    };
    let n: usize = rest.as_str().unicode_len();
    let mut i: usize = 0;
    while i < n && rest.as_str().get_char(i) != ':'
        invariant
            i <= n,
            n == rest@.len(),
            forall|k: int| 0 <= k < i ==> #[trigger] rest@[k] != ':',
        decreases n - i,
    {
        i = i + 1;
    }
    proof {
        assert(address@ =~= "mqtt:"@ + rest@);
        assert forall|c: Seq<char>, t: Seq<char>| #[trigger] mqtt_parts(address@, c, t) implies c
            == rest@.subrange(0, i as int) && i < n && t == rest@.subrange(i as int + 1, n as int) by {
            let m = "mqtt:"@;
            assert(rest@ =~= (m + c + seq![':'] + t).subrange(
                m.len() as int,
                (m + c + seq![':'] + t).len() as int,
            ));
            assert(rest@ =~= c + seq![':'] + t);
            assert(rest@[c.len() as int] == ':');
            assert(i <= c.len());
            if i < c.len() {
                assert(rest@[i as int] == ':');
                assert(c[i as int] == ':');
            }
            assert(c =~= rest@.subrange(0, i as int));
            assert(t =~= rest@.subrange(i as int + 1, n as int));
        }
    }
    if i == 0 || i >= n || i + 1 >= n {
        return None;
    }
    let client: String = rest.as_str().substring_char(0, i).to_owned();
    let topic: String = rest.as_str().substring_char(i + 1, n).to_owned();
    proof {
        assert(rest@ =~= client@ + seq![':'] + topic@);
        assert(address@ =~= "mqtt:"@ + client@ + seq![':'] + topic@);
        if client@.contains(':') {
            let k = choose|k: int| 0 <= k < client@.len() && client@[k] == ':';
            assert(rest@[k] == ':');
        }
    }
    Some(MqttAddress { client, topic })
}

/// An address that names a client and a topic is their names behind the MQTT prefix with a colon
/// between them; both have names, and no other client and topic make up the same address.
pub proof fn an_mqtt_address_names_its_parts(
    address: Seq<char>,
    client: Seq<char>,
    topic: Seq<char>,
)
    requires
        mqtt_parts(address, client, topic),
    ensures
        address == "mqtt:"@ + client + ":"@ + topic,
        client.len() > 0,
        topic.len() > 0,
        forall|c: Seq<char>, t: Seq<char>| #[trigger]
            mqtt_parts(address, c, t) ==> c == client && t == topic,
{
    reveal_strlit(":");
    assert(":"@ =~= seq![':']);
    let m = "mqtt:"@.len() as int;
    assert forall|c: Seq<char>, t: Seq<char>| #[trigger] mqtt_parts(address, c, t) implies c
        == client && t == topic by {
        let a = client.len() as int;
        let b = c.len() as int;
        assert(address[m + a] == ':');
        assert(address[m + b] == ':');
        if a < b {
            assert(address[m + a] == c[a]);
            assert(c.contains(c[a]));
        }
        if b < a {
            assert(address[m + b] == client[b]);
            assert(client.contains(client[b]));
        }
        assert(c =~= address.subrange(m, m + b));
        assert(client =~= address.subrange(m, m + a));
        assert(t =~= address.subrange(m + b + 1, address.len() as int));
        assert(topic =~= address.subrange(m + a + 1, address.len() as int));
    }
}

/// A client without a colon in its name and a topic make up an address that names them.
pub proof fn a_client_and_a_topic_make_an_address(client: Seq<char>, topic: Seq<char>)
    requires
        client.len() > 0,
        topic.len() > 0,
        !client.contains(':'),
    ensures
        mqtt_parts("mqtt:"@ + client + ":"@ + topic, client, topic),
{
    reveal_strlit(":");
    assert(":"@ =~= seq![':']);
}

/// An address is its scheme's prefix with the name behind it, and every name behind a prefix is
/// an address of that scheme: `brenn:` for durable channels, `ephemeral:`, `local:`, `mqtt:` and
/// `webhook:` for the others.
pub proof fn an_address_is_its_prefix_and_its_name(name: Seq<char>)
    ensures
        scheme_of("brenn:"@ + name) == Some(ChannelScheme::Brenn),
        ChannelScheme::Brenn.name_in("brenn:"@ + name) == name,
        scheme_of("ephemeral:"@ + name) == Some(ChannelScheme::Ephemeral),
        ChannelScheme::Ephemeral.name_in("ephemeral:"@ + name) == name,
        scheme_of("local:"@ + name) == Some(ChannelScheme::Local),
        ChannelScheme::Local.name_in("local:"@ + name) == name,
        scheme_of("mqtt:"@ + name) == Some(ChannelScheme::Mqtt),
        ChannelScheme::Mqtt.name_in("mqtt:"@ + name) == name,
        scheme_of("webhook:"@ + name) == Some(ChannelScheme::Webhook),
        ChannelScheme::Webhook.name_in("webhook:"@ + name) == name,
{
    a_prefixed_name_splits(ChannelScheme::Brenn, name);
    a_prefixed_name_splits(ChannelScheme::Ephemeral, name);
    a_prefixed_name_splits(ChannelScheme::Local, name);
    a_prefixed_name_splits(ChannelScheme::Mqtt, name);
    a_prefixed_name_splits(ChannelScheme::Webhook, name);
}

proof fn a_prefixed_name_splits(scheme: ChannelScheme, name: Seq<char>)
    ensures
        scheme_of(scheme.prefix_text() + name) == Some(scheme),
        scheme.name_in(scheme.prefix_text() + name) == name,
{
    let p = scheme.prefix_text();
    let address = p + name;
    assert(address.subrange(0, p.len() as int) =~= p);
    assert(address.subrange(p.len() as int, address.len() as int) =~= name);
    one_scheme_per_address(address, scheme, scheme);
}

/// An address has a known scheme only where it is one of the five prefixes with a name behind it.
pub proof fn a_known_scheme_stands_in_front(address: Seq<char>)
    ensures
        scheme_of(address) == Some(ChannelScheme::Brenn) ==> address == "brenn:"@
            + ChannelScheme::Brenn.name_in(address),
        scheme_of(address) == Some(ChannelScheme::Ephemeral) ==> address == "ephemeral:"@
            + ChannelScheme::Ephemeral.name_in(address),
        scheme_of(address) == Some(ChannelScheme::Local) ==> address == "local:"@
            + ChannelScheme::Local.name_in(address),
        scheme_of(address) == Some(ChannelScheme::Mqtt) ==> address == "mqtt:"@
            + ChannelScheme::Mqtt.name_in(address),
        scheme_of(address) == Some(ChannelScheme::Webhook) ==> address == "webhook:"@
            + ChannelScheme::Webhook.name_in(address),
{
    if scheme_of(address) is Some {
        let s = scheme_of(address)->0;
        let p = s.prefix_text();
        assert(address =~= address.subrange(0, p.len() as int) + address.subrange(
            p.len() as int,
            address.len() as int,
        ));
    }
}

/// The unreserved characters are the ASCII letters and digits and four marks, 66 in all: by code
/// point 45, 46, 48 to 57, 65 to 90, 95, 97 to 122 and 126.
pub proof fn unreserved_characters_by_code_point(c: char)
    ensures
        unreserved(c) <==> {
            ||| c as int == 45
            ||| c as int == 46
            ||| 48 <= c as int <= 57
            ||| 65 <= c as int <= 90
            ||| c as int == 95
            ||| 97 <= c as int <= 122
            ||| c as int == 126
        },
{
}

/// Kinds are joined from words by single hyphens: a word is a kind by itself, and a kind with a
/// hyphen and a word behind it is a kind again. What starts with a hyphen, or has two in a row,
/// or holds another character, is none.
pub proof fn kinds_are_words_joined_by_hyphens(s: Seq<char>, word: Seq<char>)
    requires
        word.len() > 0,
        forall|i: int|
            0 <= i < word.len() ==> 97 <= (#[trigger] word[i]) as int <= 122 || 48 <= word[i] as int
                <= 57,
    ensures
        kind_shaped(word),
        kind_shaped(s) && s.last() != '-' ==> kind_shaped(s + "-"@ + word),
        !kind_shaped("-"@ + word),
        !kind_shaped(s + "--"@ + word),
        !kind_shaped(Seq::<char>::empty()),
{
    reveal_strlit("-");
    reveal_strlit("--");
    if kind_shaped(s) && s.last() != '-' {
        let t = s + "-"@ + word;
        assert forall|i: int| 0 <= i < t.len() implies kind_char(#[trigger] t[i]) by {
            if i < s.len() {
                assert(t[i] == s[i]);
            } else if i > s.len() {
                assert(t[i] == word[i - s.len() - 1]);
            }
        }
        assert(t[0] == s[0]);
        assert forall|i: int| 0 <= i < t.len() - 1 implies !(#[trigger] t[i] == '-' && t[i + 1]
            == '-') by {
            if i < s.len() - 1 {
                assert(t[i] == s[i] && t[i + 1] == s[i + 1]);
            } else if i == s.len() - 1 {
                assert(t[i] == s.last());
            } else if i == s.len() {
                assert(t[i + 1] == word[0]);
            } else {
                assert(t[i] == word[i - s.len() - 1]);
            }
        }
    }
    let u = s + "--"@ + word;
    assert(u[s.len() as int] == '-' && u[s.len() as int + 1] == '-');
    assert(("-"@ + word)[0] == '-');
}

/// A kind holds nothing but lower-case letters, digits and hyphens, and begins with no hyphen.
pub proof fn kinds_hold_letters_digits_and_hyphens(s: Seq<char>, i: int)
    requires
        kind_shaped(s),
        0 <= i < s.len(),
    ensures
        97 <= s[i] as int <= 122 || 48 <= s[i] as int <= 57 || s[i] as int == 45,
        s[i] as int == 45 ==> i > 0 && s[i - 1] as int != 45,
{
    assert(kind_char(s[i]));
    if i > 0 {
        assert(!(s[i - 1] == '-' && s[i - 1 + 1] == '-'));
    }
}

/// The control planes are the five addresses under `local:brenn/`: the theme, the takeover, the
/// link state, the surface state and the toast. Only the takeover takes a grant, only the last
/// three are the kernel's to publish on, and all but the toast replay their last message.
pub proof fn the_reserved_planes_are_five(address: Seq<char>)
    ensures
        reserved_plane(address) is Some <==> address == "local:brenn/theme"@ || address
            == "local:brenn/takeover"@ || address == "local:brenn/link-state"@ || address
            == "local:brenn/surface-state"@ || address == "local:brenn/toast"@,
        reserved_plane(address) matches Some(plane) ==> {
            &&& plane.requires_takeover_grant <==> address == "local:brenn/takeover"@
            &&& plane.kernel_publish_only <==> address != "local:brenn/theme"@ && address
                != "local:brenn/takeover"@
            &&& plane.ring_depth == (if address == "local:brenn/toast"@ {
                0int
            } else {
                1int
            })
        },
        reserved_plane(address) is Some ==> in_reserved_namespace(address),
        in_reserved_namespace(address) <==> exists|rest: Seq<char>|
            address == #[trigger] ("local:brenn/"@ + rest),
{
    reveal_strlit("local:brenn/");
    reveal_strlit("local:brenn/theme");
    reveal_strlit("local:brenn/takeover");
    reveal_strlit("local:brenn/link-state");
    reveal_strlit("local:brenn/surface-state");
    reveal_strlit("local:brenn/toast");
    let p = "local:brenn/"@;
    assert("local:brenn/theme"@[13] == 'h' && "local:brenn/toast"@[13] == 'o');
    assert("local:brenn/takeover"@.len() == 20);
    if reserved_plane(address) is Some {
        assert(address.subrange(0, 12) =~= p);
    }
    if in_reserved_namespace(address) {
        assert(address =~= p + address.subrange(12, address.len() as int));
    }
    assert forall|rest: Seq<char>| address == #[trigger] (p + rest) implies in_reserved_namespace(
        address,
    ) by {
        assert(address.subrange(0, 12) =~= p);
    }
}

} // verus!
