use toshi::error::{ErrorKind, http_status, kind_of_rpc_code, rpc_code, unknown_index_message, worse_kind};

#[test]
fn http_status_mapping_is_fixed() {
    assert_eq!(http_status(ErrorKind::NotFound), 404);
    assert_eq!(http_status(ErrorKind::QueryParse), 400);
    assert_eq!(http_status(ErrorKind::Exists), 400);
    assert_eq!(http_status(ErrorKind::Engine), 500);
    assert_eq!(http_status(ErrorKind::DataLoss), 500);
    assert_eq!(http_status(ErrorKind::Transport), 500);
    assert_eq!(http_status(ErrorKind::Unimplemented), 500);
}

#[test]
fn severity_prefers_internal_over_transport_over_not_found() {
    assert_eq!(worse_kind(ErrorKind::NotFound, ErrorKind::Transport), ErrorKind::Transport);
    assert_eq!(worse_kind(ErrorKind::Transport, ErrorKind::Engine), ErrorKind::Engine);
    assert_eq!(worse_kind(ErrorKind::Engine, ErrorKind::NotFound), ErrorKind::Engine);
    assert_eq!(worse_kind(ErrorKind::NotFound, ErrorKind::NotFound), ErrorKind::NotFound);
}

#[test]
fn rpc_codes_round_trip_semantic_kinds() {
    assert_eq!(rpc_code(ErrorKind::NotFound), 5);
    assert_eq!(rpc_code(ErrorKind::DataLoss), 15);
    assert_eq!(rpc_code(ErrorKind::Unimplemented), 12);
    assert_eq!(kind_of_rpc_code(5), ErrorKind::NotFound);
    assert_eq!(kind_of_rpc_code(15), ErrorKind::DataLoss);
    assert_eq!(kind_of_rpc_code(13), ErrorKind::Engine);
    assert_eq!(kind_of_rpc_code(2), ErrorKind::Engine);
}

#[test]
fn unknown_index_message_shape() {
    assert_eq!(unknown_index_message("books2"), "Unknown Index: 'books2' does not exist");
}
