use ibc_proto::cosmos::base::query::v1beta1::PageRequest as RawPageRequest;
use ibc_relayer::chain::requests::{
    raw_pagination, raw_sequences, HeightQuery, IncludeProof, PageRequest, QueryChannelRequest,
    QueryChannelsRequest, QueryClientStatesRequest, QueryConnectionsRequest,
};
use ibc_relayer::error::Error;
use ibc_relayer::identifier::{ChannelId, Height, PortId, Sequence};

#[test]
fn page_request_all_asks_for_everything() {
    let all = PageRequest::all();
    assert_eq!(all.limit, u64::MAX);
    assert!(all.key.is_empty());
    assert_eq!(all.offset, 0);
    assert!(!all.count_total);
    assert!(!all.reverse);
    assert!(all.is_valid());
    assert!(!all.counts_total());
}

#[test]
fn key_and_offset_exclude_each_other() {
    let mut request = PageRequest::all();
    request.offset = 5;
    request.count_total = true;
    assert!(request.is_valid());
    assert!(request.counts_total());
    request.key = vec![1];
    assert!(!request.is_valid());
    assert!(!request.counts_total());
    request.offset = 0;
    assert!(request.is_valid());
    assert!(!request.counts_total());
}

#[test]
fn latest_height_goes_on_the_wire_as_zero() {
    assert_eq!(HeightQuery::Latest.wire_height(), 0);
    assert_eq!(HeightQuery::Specific(Height::new(3, 42)).wire_height(), 42);
    assert_eq!(HeightQuery::Specific(Height::new(3, 0)).wire_height(), 0);
}

#[test]
fn height_becomes_a_block_height_where_it_fits() {
    let height = HeightQuery::Specific(Height::new(1, 42)).to_block_height().unwrap();
    assert_eq!(height.value(), 42);
    assert_eq!(HeightQuery::Latest.to_block_height().unwrap().value(), 0);
    let largest = i64::MAX as u64;
    assert_eq!(
        HeightQuery::Specific(Height::new(0, largest)).to_block_height().unwrap().value(),
        largest
    );
    assert_eq!(
        HeightQuery::Specific(Height::new(0, largest + 1)).to_block_height().err(),
        Some(Error::InvalidHeight(largest + 1))
    );
    assert_eq!(
        HeightQuery::Specific(Height::new(0, u64::MAX)).to_block_height().err(),
        Some(Error::InvalidHeight(u64::MAX))
    );
}

#[test]
fn height_is_spelled_in_decimal() {
    assert_eq!(HeightQuery::Latest.to_metadata_text(), "0");
    assert_eq!(HeightQuery::Specific(Height::new(2, 1234)).to_metadata_text(), "1234");
    assert_eq!(HeightQuery::Latest.to_text(), "latest height");
    assert_eq!(HeightQuery::Specific(Height::new(2, 1234)).to_text(), "2-1234");
}

#[test]
fn page_request_goes_on_the_wire_field_by_field() {
    let request = PageRequest { key: vec![1, 2], offset: 0, limit: 50, count_total: false, reverse: true };
    let raw = RawPageRequest::from(request);
    assert_eq!(
        raw,
        RawPageRequest { key: vec![1, 2], offset: 0, limit: 50, count_total: false, reverse: true }
    );
    let raw = raw_pagination(Some(PageRequest::all())).unwrap();
    assert_eq!(raw.limit, u64::MAX);
    assert_eq!(raw, ibc_proto::cosmos::base::query::pagination::all().unwrap());
    assert_eq!(raw_pagination(None), None);
    assert_eq!(raw_sequences(vec![Sequence(3), Sequence(1), Sequence(2)]), vec![3, 1, 2]);
    assert_eq!(raw_sequences(Vec::new()), Vec::<u64>::new());
}

#[test]
fn requests_hold_what_they_ask_for() {
    let request = QueryChannelRequest {
        port_id: PortId::new("transfer"),
        channel_id: ChannelId::new("channel-0"),
        height: HeightQuery::Latest,
    };
    assert_eq!(request.port_id.as_str(), "transfer");
    assert_eq!(request.height, HeightQuery::Latest);
    assert!(QueryChannelsRequest { pagination: None }.pagination.is_none());
    assert!(QueryClientStatesRequest { pagination: Some(PageRequest::all()) }.pagination.is_some());
    assert!(QueryConnectionsRequest { pagination: None }.pagination.is_none());
    assert_ne!(IncludeProof::Yes, IncludeProof::No);
}

#[test]
fn height_becomes_the_bytes_of_its_decimal_spelling() {
    let value = HeightQuery::Specific(Height::new(3, 42)).to_metadata_value().unwrap();
    assert_eq!(value.as_bytes(), &b"42".to_vec());
    assert_eq!(HeightQuery::Latest.to_metadata_value().unwrap().as_bytes(), &b"0".to_vec());
    let largest = HeightQuery::Specific(Height::new(0, u64::MAX)).to_metadata_value().unwrap();
    assert_eq!(largest.as_bytes(), &b"18446744073709551615".to_vec());
    assert_eq!(
        tonic::metadata::AsciiMetadataValue::try_from_bytes(largest.as_bytes()).unwrap().to_str().unwrap(),
        "18446744073709551615"
    );
}

#[test]
fn block_height_holds_the_height_on_the_wire() {
    let made = HeightQuery::Specific(Height::new(9, 1_000_000)).to_block_height().unwrap();
    assert_eq!(made.value(), 1_000_000);
    assert_eq!(tendermint::block::Height::try_from(made.value()).unwrap().value(), 1_000_000);
}

#[test]
fn default_page_request_asks_for_nothing_in_particular() {
    let page = PageRequest::default();
    assert!(page.key.is_empty());
    assert_eq!(page.offset, 0);
    assert_eq!(page.limit, 0);
    assert!(!page.count_total);
    assert!(!page.reverse);
    let all = PageRequest::all();
    let copy = all.clone();
    assert_eq!(copy.limit, u64::MAX);
    assert_eq!(copy.key, all.key);
    let request = QueryChannelRequest {
        port_id: PortId::new("transfer"),
        channel_id: ChannelId::new("channel-0"),
        height: HeightQuery::Latest,
    };
    let again = request.clone();
    assert_eq!(again.port_id, request.port_id);
    assert_eq!(again.channel_id, request.channel_id);
}
