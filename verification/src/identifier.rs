//! Identifiers of chains and of what lives on them, and block heights.
//!
//! An identifier is an opaque string. Two identifiers are the same when they
//! spell the same: their views, the sequences of characters, are equal.

use vstd::prelude::*;
use vstd::std_specs::cmp::PartialEqSpecImpl;

verus! {

/// The name of a chain.
#[derive(Debug, Hash, PartialOrd, Ord)]
pub struct ChainId(String);

impl View for ChainId {
    type V = Seq<char>;

    closed spec fn view(&self) -> Seq<char> {
        self.0@
    }
}

impl DeepView for ChainId {
    type V = Seq<char>;

    open spec fn deep_view(&self) -> Seq<char> {
        self@
    }
}

impl ChainId {
    pub fn new(id: &str) -> (r: Self)
        ensures
            r@ == id@,
    {
        ChainId(id.to_owned())
    }

    pub fn as_str(&self) -> (r: &str)
        ensures
            r@ == self@,
    {
        self.0.as_str()
    }

    /// The string that spells the identifier.
    pub closed spec fn spelling(&self) -> String {
        self.0
    }

    /// The identifier as an owned string.
    pub fn to_string(&self) -> (r: String)
        ensures
            r == self.spelling(),
            r@ == self@,
    {
        self.0.clone()
    }
}

impl Clone for ChainId {
    fn clone(&self) -> (r: Self)
        ensures
            r == *self,
    {
        ChainId(self.0.clone())
    }
}

impl PartialEq for ChainId {
    fn eq(&self, other: &Self) -> (r: bool) {
        self.0 == other.0
    }
}

impl Eq for ChainId {
}

impl PartialEqSpecImpl for ChainId {
    open spec fn obeys_eq_spec() -> bool {
        true
    }

    open spec fn eq_spec(&self, other: &Self) -> bool {
        self@ == other@
    }
}

/// The name of a light client on the chain that hosts it.
#[derive(Debug, Hash, PartialOrd, Ord)]
pub struct ClientId(String);

impl View for ClientId {
    type V = Seq<char>;

    closed spec fn view(&self) -> Seq<char> {
        self.0@
    }
}

impl DeepView for ClientId {
    type V = Seq<char>;

    open spec fn deep_view(&self) -> Seq<char> {
        self@
    }
}

impl ClientId {
    pub fn new(id: &str) -> (r: Self)
        ensures
            r@ == id@,
    {
        ClientId(id.to_owned())
    }

    pub fn as_str(&self) -> (r: &str)
        ensures
            r@ == self@,
    {
        self.0.as_str()
    }

    /// The string that spells the identifier.
    pub closed spec fn spelling(&self) -> String {
        self.0
    }

    /// The identifier as an owned string.
    pub fn to_string(&self) -> (r: String)
        ensures
            r == self.spelling(),
            r@ == self@,
    {
        self.0.clone()
    }
}

impl Clone for ClientId {
    fn clone(&self) -> (r: Self)
        ensures
            r == *self,
    {
        ClientId(self.0.clone())
    }
}

impl PartialEq for ClientId {
    fn eq(&self, other: &Self) -> (r: bool) {
        self.0 == other.0
    }
}

impl Eq for ClientId {
}

impl PartialEqSpecImpl for ClientId {
    open spec fn obeys_eq_spec() -> bool {
        true
    }

    open spec fn eq_spec(&self, other: &Self) -> bool {
        self@ == other@
    }
}

/// The name of a connection end on its chain.
#[derive(Debug, Hash, PartialOrd, Ord)]
pub struct ConnectionId(String);

impl View for ConnectionId {
    type V = Seq<char>;

    closed spec fn view(&self) -> Seq<char> {
        self.0@
    }
}

impl DeepView for ConnectionId {
    type V = Seq<char>;

    open spec fn deep_view(&self) -> Seq<char> {
        self@
    }
}

impl ConnectionId {
    pub fn new(id: &str) -> (r: Self)
        ensures
            r@ == id@,
    {
        ConnectionId(id.to_owned())
    }

    pub fn as_str(&self) -> (r: &str)
        ensures
            r@ == self@,
    {
        self.0.as_str()
    }

    /// The string that spells the identifier.
    pub closed spec fn spelling(&self) -> String {
        self.0
    }

    /// The identifier as an owned string.
    pub fn to_string(&self) -> (r: String)
        ensures
            r == self.spelling(),
            r@ == self@,
    {
        self.0.clone()
    }
}

impl Clone for ConnectionId {
    fn clone(&self) -> (r: Self)
        ensures
            r == *self,
    {
        ConnectionId(self.0.clone())
    }
}

impl PartialEq for ConnectionId {
    fn eq(&self, other: &Self) -> (r: bool) {
        self.0 == other.0
    }
}

impl Eq for ConnectionId {
}

impl PartialEqSpecImpl for ConnectionId {
    open spec fn obeys_eq_spec() -> bool {
        true
    }

    open spec fn eq_spec(&self, other: &Self) -> bool {
        self@ == other@
    }
}

/// The name of a port, one per application module of a chain.
#[derive(Debug, Hash, PartialOrd, Ord)]
pub struct PortId(String);

impl View for PortId {
    type V = Seq<char>;

    closed spec fn view(&self) -> Seq<char> {
        self.0@
    }
}

impl DeepView for PortId {
    type V = Seq<char>;

    open spec fn deep_view(&self) -> Seq<char> {
        self@
    }
}

impl PortId {
    pub fn new(id: &str) -> (r: Self)
        ensures
            r@ == id@,
    {
        PortId(id.to_owned())
    }

    pub fn as_str(&self) -> (r: &str)
        ensures
            r@ == self@,
    {
        self.0.as_str()
    }

    /// The string that spells the identifier.
    pub closed spec fn spelling(&self) -> String {
        self.0
    }

    /// The identifier as an owned string.
    pub fn to_string(&self) -> (r: String)
        ensures
            r == self.spelling(),
            r@ == self@,
    {
        self.0.clone()
    }
}

impl Clone for PortId {
    fn clone(&self) -> (r: Self)
        ensures
            r == *self,
    {
        PortId(self.0.clone())
    }
}

impl PartialEq for PortId {
    fn eq(&self, other: &Self) -> (r: bool) {
        self.0 == other.0
    }
}

impl Eq for PortId {
}

impl PartialEqSpecImpl for PortId {
    open spec fn obeys_eq_spec() -> bool {
        true
    }

    open spec fn eq_spec(&self, other: &Self) -> bool {
        self@ == other@
    }
}

/// The name of a channel end; unique on its chain together with the port.
#[derive(Debug, Hash, PartialOrd, Ord)]
pub struct ChannelId(String);

impl View for ChannelId {
    type V = Seq<char>;

    closed spec fn view(&self) -> Seq<char> {
        self.0@
    }
}

impl DeepView for ChannelId {
    type V = Seq<char>;

    open spec fn deep_view(&self) -> Seq<char> {
        self@
    }
}

impl ChannelId {
    pub fn new(id: &str) -> (r: Self)
        ensures
            r@ == id@,
    {
        ChannelId(id.to_owned())
    }

    pub fn as_str(&self) -> (r: &str)
        ensures
            r@ == self@,
    {
        self.0.as_str()
    }

    /// The string that spells the identifier.
    pub closed spec fn spelling(&self) -> String {
        self.0
    }

    /// The identifier as an owned string.
    pub fn to_string(&self) -> (r: String)
        ensures
            r == self.spelling(),
            r@ == self@,
    {
        self.0.clone()
    }
}

impl Clone for ChannelId {
    fn clone(&self) -> (r: Self)
        ensures
            r == *self,
    {
        ChannelId(self.0.clone())
    }
}

impl PartialEq for ChannelId {
    fn eq(&self, other: &Self) -> (r: bool) {
        self.0 == other.0
    }
}

impl Eq for ChannelId {
}

impl PartialEqSpecImpl for ChannelId {
    open spec fn obeys_eq_spec() -> bool {
        true
    }

    open spec fn eq_spec(&self, other: &Self) -> bool {
        self@ == other@
    }
}

/// A block height: the number of a revision of the chain and the height within it.
///
/// Heights of one chain compare; those of two chains do not.
#[derive(Clone, Copy, Debug, PartialEq, Eq, Structural, Hash, PartialOrd, Ord)]
pub struct Height {
    pub revision_number: u64,
    pub revision_height: u64,
}

impl Height {
    pub fn new(revision_number: u64, revision_height: u64) -> (r: Self)
        ensures
            r.revision_number == revision_number,
            r.revision_height == revision_height,
    {
        Height { revision_number, revision_height }
    }

    pub open spec fn spec_zero() -> Height {
        Height { revision_number: 0, revision_height: 0 }
    }

    /// The height that stands for "the latest one" in a query.
    #[verifier::when_used_as_spec(spec_zero)]
    pub fn zero() -> (r: Self)
        ensures
            r == (Height { revision_number: 0, revision_height: 0 }),
            r == Self::spec_zero(),
    {
        Height { revision_number: 0, revision_height: 0 }
    }

    /// Whether the height is that of no block: the height within the
    /// revision is 0, whatever the revision.
    pub open spec fn spec_is_zero(&self) -> bool {
        self.revision_height == 0
    }

    #[verifier::when_used_as_spec(spec_is_zero)]
    pub fn is_zero(&self) -> (r: bool)
        ensures
            r == self.spec_is_zero(),
    {
        self.revision_height == 0
    }
}

/// The number of a packet on its channel.
#[derive(Clone, Copy, Debug, PartialEq, Eq, Structural, Hash, PartialOrd, Ord)]
pub struct Sequence(pub u64);

} // verus!
