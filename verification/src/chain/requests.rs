//! Query requests sent to a chain, and the form in which they go on the wire.

use crate::error::Error;
use crate::identifier::ChannelId;
use crate::identifier::ClientId;
use crate::identifier::ConnectionId;
use crate::identifier::Height;
use crate::identifier::PortId;
use crate::identifier::Sequence;
use ibc_proto::cosmos::base::query::v1beta1::PageRequest as RawPageRequest;
use tendermint::block::Height as TMBlockHeight;
use tendermint::Error as TMError;
use tonic::metadata::AsciiMetadataValue;
use vstd::prelude::*;
use vstd::std_specs::convert::FromSpecImpl;
use vstd::string::StringExecFns;
use vstd::string::StringSliceAdditionalSpecFns;
use vstd::utf8::encode_utf8;

verus! {

#[verifier::external_type_specification]
pub struct ExRawPageRequest(RawPageRequest);

#[verifier::external_type_specification]
#[verifier::external_body]
pub struct ExTMError(TMError);

/// `tendermint::block::Height::try_from(u64)`, with the number that the
/// block height then holds: a block height holds any number that also fits
/// a signed 64-bit integer, as it is, and no other.
#[verifier::external_body]
fn block_height(height: u64) -> (r: Result<u64, TMError>)
    ensures
        r is Ok <==> height <= 0x7fff_ffff_ffff_ffff,
        r matches Ok(value) ==> value == height,
{
    match TMBlockHeight::try_from(height) {
        Ok(made) => Ok(made.value()),
        Err(e) => Err(e),
    }
}

/// Whether the byte may stand in the value of a metadata entry: it is a
/// tab, or no control character.
pub open spec fn is_metadata_byte(b: u8) -> bool {
    b >= 32 && b != 127 || b == 9
}

/// Whether each of `bytes` may stand in the value of a metadata entry.
pub open spec fn is_metadata_text(bytes: Seq<u8>) -> bool {
    forall|i: int| 0 <= i < bytes.len() ==> is_metadata_byte(#[trigger] bytes[i])
}

/// `tonic::metadata::AsciiMetadataValue::from_str`, with the bytes that the
/// value then holds: a text is taken exactly where each of its bytes may
/// stand in the value of a metadata entry, and the value holds the bytes of
/// the text.
#[verifier::external_body]
fn ascii_metadata(text: &str) -> (r: Option<Vec<u8>>)
    ensures
        r is Some <==> is_metadata_text(text.spec_bytes()),
        r matches Some(bytes) ==> bytes@ == text.spec_bytes(),
{
    match AsciiMetadataValue::from_str(text) {
        Ok(value) => Some(value.as_bytes().to_vec()),
        Err(_) => None,
    }
}

/// The value of a metadata entry of a request: bytes of which each may
/// stand there.
#[derive(Clone, Debug, PartialEq, Eq)]
pub struct MetadataValue {
    bytes: Vec<u8>,
}

impl MetadataValue {
    /// The bytes of the value.
    pub closed spec fn spec_bytes(&self) -> Seq<u8> {
        self.bytes@
    }

    /// Whether each byte may stand in the value of a metadata entry. This
    /// holds of every value that `to_metadata_value` made.
    pub open spec fn wf(&self) -> bool {
        is_metadata_text(self.spec_bytes())
    }

    pub fn as_bytes(&self) -> (r: &Vec<u8>)
        ensures
            r@ == self.spec_bytes(),
    {
        &self.bytes
    }
}

/// The height of a block as a chain counts it: a number that also fits a
/// signed 64-bit integer.
#[derive(Clone, Copy, Debug, PartialEq, Eq)]
pub struct BlockHeight {
    value: u64,
}

impl BlockHeight {
    /// The number of the block.
    pub closed spec fn spec_value(&self) -> u64 {
        self.value
    }

    /// Whether the number fits a signed 64-bit integer. This holds of every
    /// block height that `to_block_height` made.
    pub open spec fn wf(&self) -> bool {
        self.spec_value() <= 0x7fff_ffff_ffff_ffff
    }

    #[verifier::when_used_as_spec(spec_value)]
    pub fn value(&self) -> (r: u64)
        ensures
            r == self.spec_value(),
    {
        self.value
    }
}


/// The height at which a query is answered: the latest that the chain can
/// serve, or a given one.
#[derive(Clone, Copy, Debug, PartialEq, Eq, Structural)]
pub enum HeightQuery {
    Latest,
    Specific(Height),
}

impl HeightQuery {
    /// The height as it goes on the wire: 0 stands for the latest height, a
    /// given height goes by its height within the revision.
    pub open spec fn spec_wire_height(self) -> u64 {
        match self {
            HeightQuery::Latest => 0,
            HeightQuery::Specific(height) => height.revision_height,
        }
    }

    #[verifier::when_used_as_spec(spec_wire_height)]
    pub fn wire_height(self) -> (r: u64)
        ensures
            r == self.spec_wire_height(),
    {
        match self {
            HeightQuery::Latest => 0u64,
            HeightQuery::Specific(height) => height.revision_height,
        }
    }

    /// The height as a block height of the chain.
    ///
    /// Fails, with the height as it goes on the wire, exactly when that
    /// number does not fit a signed 64-bit integer.
    pub fn to_block_height(self) -> (r: Result<BlockHeight, Error>)
        ensures
            r is Ok <==> self.spec_wire_height() <= 0x7fff_ffff_ffff_ffff,
            r matches Ok(made) ==> made.wf() && made.spec_value() == self.spec_wire_height(),
            r matches Err(e) ==> e == Error::InvalidHeight(self.spec_wire_height()),
    {
        let height = self.wire_height();
        match block_height(height) {
            Ok(value) => Ok(BlockHeight { value }),
            Err(_) => Err(Error::InvalidHeight(height)),
        }
    }

    /// The height in words: `latest height`, or the number of the revision
    /// and the height within it, both in decimal, with a hyphen between.
    pub fn to_text(self) -> (r: String)
        ensures
            match self {
                HeightQuery::Latest => r@ == "latest height"@,
                HeightQuery::Specific(height) => exists|number: String, within: String|
                    {
                        &&& vstd::string::to_string_from_display_ensures::<u64>(
                            &height.revision_number,
                            number,
                        )
                        &&& vstd::string::to_string_from_display_ensures::<u64>(
                            &height.revision_height,
                            within,
                        )
                        &&& r@ == number@ + "-"@ + within@
                    },
            },
    {
        match self {
            HeightQuery::Latest => "latest height".to_owned(),
            HeightQuery::Specific(height) => {
                let number = height.revision_number.to_string();
                let within = height.revision_height.to_string();
                let mut text = number.clone();
                text.append("-");
                text.append(within.as_str());
                text
            },
        }
    }

    /// The height as the value of a request's metadata entry: the bytes of
    /// the decimal spelling of the height as it goes on the wire.
    ///
    /// Fails, with the height as it goes on the wire, exactly when a byte of
    /// that spelling may not stand in the value of a metadata entry.
    pub fn to_metadata_value(self) -> (r: Result<MetadataValue, Error>)
        ensures
            exists|text: String|
                {
                    &&& #[trigger] vstd::string::to_string_from_display_ensures::<u64>(
                        &self.spec_wire_height(),
                        text,
                    )
                    &&& match r {
                        Ok(value) => {
                            &&& value.wf()
                            &&& value.spec_bytes() == encode_utf8(text@)
                        },
                        Err(e) => {
                            &&& !is_metadata_text(encode_utf8(text@))
                            &&& e == Error::InvalidMetadata(self.spec_wire_height())
                        },
                    }
                },
    {
        let text = self.to_metadata_text();
        let spelled = text.as_str();
        assert(spelled.spec_bytes() == encode_utf8(text@));
        match ascii_metadata(spelled) {
            Some(bytes) => Ok(MetadataValue { bytes }),
            None => Err(Error::InvalidMetadata(self.wire_height())),
        }
    }

    /// The height as the text of a request's metadata entry: the decimal
    /// spelling of the height as it goes on the wire.
    pub fn to_metadata_text(self) -> (r: String)
        ensures
            vstd::string::to_string_from_display_ensures::<u64>(&self.spec_wire_height(), r),
    {
        let height = self.wire_height();
        height.to_string()
    }
}

/// Whether a query's answer comes with a proof.
#[derive(Clone, Copy, Debug, PartialEq, Eq, Structural)]
pub enum IncludeProof {
    Yes,
    No,
}

/// Pagination of a query whose answer is a list.
///
/// `key` and `offset` are alternatives: a request sets at most one of them.
/// `count_total` is honoured only together with `offset`.
#[derive(Clone, Debug)]
pub struct PageRequest {
    /// Where the next page starts, as the previous answer gave it.
    pub key: Vec<u8>,
    /// How many items to skip, where no key is at hand.
    pub offset: u64,
    /// How many items the page holds at most.
    pub limit: u64,
    /// Whether the answer counts all items.
    pub count_total: bool,
    /// Whether the items come in descending order.
    pub reverse: bool,
}

impl Default for PageRequest {
    /// The request that asks for nothing in particular: no key, no offset,
    /// no limit, no count, ascending order.
    fn default() -> (r: Self)
        ensures
            r.key@ == Seq::<u8>::empty(),
            r.offset == 0,
            r.limit == 0,
            !r.count_total,
            !r.reverse,
    {
        PageRequest { key: Vec::new(), offset: 0, limit: 0, count_total: false, reverse: false }
    }
}

impl PageRequest {
    /// Whether the request keeps the rule that a key and an offset are not
    /// both set.
    pub open spec fn spec_is_valid(&self) -> bool {
        self.key@.len() == 0 || self.offset == 0
    }

    #[verifier::when_used_as_spec(spec_is_valid)]
    pub fn is_valid(&self) -> (r: bool)
        ensures
            r == self.spec_is_valid(),
    {
        self.key.len() == 0 || self.offset == 0
    }

    /// Whether the answer counts all items: the request asks for it and
    /// sets no key.
    pub open spec fn spec_counts_total(&self) -> bool {
        self.count_total && self.key@.len() == 0
    }

    #[verifier::when_used_as_spec(spec_counts_total)]
    pub fn counts_total(&self) -> (r: bool)
        ensures
            r == self.spec_counts_total(),
    {
        self.count_total && self.key.len() == 0
    }

    /// The request for every item in one page.
    pub fn all() -> (r: PageRequest)
        ensures
            r.key@ == Seq::<u8>::empty(),
            r.offset == 0,
            r.limit == u64::MAX,
            !r.count_total,
            !r.reverse,
            r.spec_is_valid(),
    {
        PageRequest { key: Vec::new(), offset: 0, limit: u64::MAX, count_total: false, reverse: false }
    }
}

/// The wire form of a page request: field for field the same.
pub open spec fn spec_raw_page(request: PageRequest) -> RawPageRequest {
    RawPageRequest {
        key: request.key,
        offset: request.offset,
        limit: request.limit,
        count_total: request.count_total,
        reverse: request.reverse,
    }
}

impl From<PageRequest> for RawPageRequest {
    fn from(request: PageRequest) -> (r: Self) {
        RawPageRequest {
            key: request.key,
            offset: request.offset,
            limit: request.limit,
            count_total: request.count_total,
            reverse: request.reverse,
        }
    }
}

impl FromSpecImpl<PageRequest> for RawPageRequest {
    open spec fn obeys_from_spec() -> bool {
        true
    }

    open spec fn from_spec(request: PageRequest) -> Self {
        spec_raw_page(request)
    }
}

/// The wire form of an optional page request.
pub open spec fn spec_raw_pagination(pagination: Option<PageRequest>) -> Option<RawPageRequest> {
    match pagination {
        Some(request) => Some(spec_raw_page(request)),
        None => None,
    }
}

/// The wire form of an optional page request.
pub fn raw_pagination(pagination: Option<PageRequest>) -> (r: Option<RawPageRequest>)
    ensures
        r == spec_raw_pagination(pagination),
{
    match pagination {
        Some(request) => Some(RawPageRequest::from(request)),
        None => None,
    }
}

/// The numbers of a list of packet sequences, in order.
pub open spec fn numbers_of(sequences: Seq<Sequence>) -> Seq<u64> {
    Seq::new(sequences.len(), |i: int| sequences[i].0)
}

/// The numbers of a list of packet sequences, as they go on the wire.
pub fn raw_sequences(sequences: Vec<Sequence>) -> (r: Vec<u64>)
    ensures
        r@ == numbers_of(sequences@),
{
    let mut out: Vec<u64> = Vec::new();
    let mut i: usize = 0;
    while i < sequences.len()
        invariant
            i <= sequences.len(),
            out@.len() == i,
            forall|j: int| 0 <= j < i ==> out@[j] == sequences@[j].0,
        decreases sequences.len() - i,
    {
        out.push(sequences[i].0);
        i = i + 1;
    }
    assert(out@ =~= numbers_of(sequences@));
    out
}

/// The state of one client.
#[derive(Clone, Debug)]
pub struct QueryClientStateRequest {
    pub client_id: ClientId,
    pub height: HeightQuery,
}

/// The states of all clients of a chain.
#[derive(Clone, Debug)]
pub struct QueryClientStatesRequest {
    pub pagination: Option<PageRequest>,
}

/// One consensus state of a client.
#[derive(Clone, Debug)]
pub struct QueryConsensusStateRequest {
    pub client_id: ClientId,
    pub consensus_height: Height,
    pub query_height: HeightQuery,
}

/// The client state that an upgrade plan holds.
#[derive(Clone, Debug)]
pub struct QueryUpgradedClientStateRequest {
    pub upgrade_height: Height,
}

/// The consensus state that an upgrade plan holds.
#[derive(Clone, Debug)]
pub struct QueryUpgradedConsensusStateRequest {
    pub upgrade_height: Height,
}

/// All consensus states of a client.
#[derive(Clone, Debug)]
pub struct QueryConsensusStatesRequest {
    pub client_id: ClientId,
    pub pagination: Option<PageRequest>,
}

/// All connections of a chain.
#[derive(Clone, Debug)]
pub struct QueryConnectionsRequest {
    pub pagination: Option<PageRequest>,
}

/// The connections that rest on one client.
#[derive(Clone, Debug)]
pub struct QueryClientConnectionsRequest {
    pub client_id: ClientId,
}

/// One connection end.
#[derive(Clone, Debug)]
pub struct QueryConnectionRequest {
    pub connection_id: ConnectionId,
    pub height: HeightQuery,
}

/// The channels that rest on one connection.
#[derive(Clone, Debug)]
pub struct QueryConnectionChannelsRequest {
    pub connection_id: ConnectionId,
    pub pagination: Option<PageRequest>,
}

/// All channels of a chain.
#[derive(Clone, Debug)]
pub struct QueryChannelsRequest {
    pub pagination: Option<PageRequest>,
}

/// One channel end.
#[derive(Clone, Debug)]
pub struct QueryChannelRequest {
    pub port_id: PortId,
    pub channel_id: ChannelId,
    pub height: HeightQuery,
}

/// The state of the client under a channel.
#[derive(Clone, Debug)]
pub struct QueryChannelClientStateRequest {
    pub port_id: PortId,
    pub channel_id: ChannelId,
}

/// The commitment of one packet.
#[derive(Clone, Debug)]
pub struct QueryPacketCommitmentRequest {
    pub port_id: PortId,
    pub channel_id: ChannelId,
    pub sequence: Sequence,
    pub height: HeightQuery,
}

/// The commitments of all packets of a channel.
#[derive(Clone, Debug)]
pub struct QueryPacketCommitmentsRequest {
    pub port_id: PortId,
    pub channel_id: ChannelId,
    pub pagination: Option<PageRequest>,
}

/// The receipt of one packet.
#[derive(Clone, Debug)]
pub struct QueryPacketReceiptRequest {
    pub port_id: PortId,
    pub channel_id: ChannelId,
    pub sequence: Sequence,
    pub height: HeightQuery,
}

/// Which of the packets committed on the other end were not received here.
#[derive(Clone, Debug)]
pub struct QueryUnreceivedPacketsRequest {
    pub port_id: PortId,
    pub channel_id: ChannelId,
    pub packet_commitment_sequences: Vec<Sequence>,
}

/// The acknowledgement of one packet.
#[derive(Clone, Debug)]
pub struct QueryPacketAcknowledgementRequest {
    pub port_id: PortId,
    pub channel_id: ChannelId,
    pub sequence: Sequence,
    pub height: HeightQuery,
}

/// The acknowledgements of the packets of a channel.
#[derive(Clone, Debug)]
pub struct QueryPacketAcknowledgementsRequest {
    pub port_id: PortId,
    pub channel_id: ChannelId,
    pub pagination: Option<PageRequest>,
    pub packet_commitment_sequences: Vec<Sequence>,
}

/// Which of the acknowledgements written on the other end were not received here.
#[derive(Clone, Debug)]
pub struct QueryUnreceivedAcksRequest {
    pub port_id: PortId,
    pub channel_id: ChannelId,
    pub packet_ack_sequences: Vec<Sequence>,
}

/// The number of the next packet that an ordered channel receives.
#[derive(Clone, Debug)]
pub struct QueryNextSequenceReceiveRequest {
    pub port_id: PortId,
    pub channel_id: ChannelId,
    pub height: HeightQuery,
}

/// The consensus state of the chain itself.
#[derive(Clone, Debug)]
pub struct QueryHostConsensusStateRequest {
    pub height: HeightQuery,
}

} // verus!
