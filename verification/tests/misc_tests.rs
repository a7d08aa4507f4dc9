use arcqueue::cli::{DEFAULT_PORT, MAX_CONNECTIONS};
use arcqueue::{Args, CabinetId, Error, Response, Status};

#[test]
fn cabinet_id_parses_hyphenated_uuid() {
    let id = CabinetId::parse("67e55044-10b1-426f-9247-bb680e5fe0c8");
    assert_eq!(id, Ok(CabinetId { value: 0x67e5504410b1426f9247bb680e5fe0c8 }));
}

#[test]
fn cabinet_id_parses_other_uuid_forms() {
    let value = 0xa1a2a3a4b1b2c1c2d1d2d3d4d5d6d7d8u128;
    assert_eq!(CabinetId::parse("a1a2a3a4b1b2c1c2d1d2d3d4d5d6d7d8"), Ok(CabinetId { value }));
    assert_eq!(
        CabinetId::parse("A1A2A3A4-B1B2-C1C2-D1D2-D3D4D5D6D7D8"),
        Ok(CabinetId { value })
    );
    assert_eq!(
        CabinetId::parse("{a1a2a3a4-b1b2-c1c2-d1d2-d3d4d5d6d7d8}"),
        Ok(CabinetId { value })
    );
    assert_eq!(
        CabinetId::parse("urn:uuid:a1a2a3a4-b1b2-c1c2-d1d2-d3d4d5d6d7d8"),
        Ok(CabinetId { value })
    );
}

#[test]
fn cabinet_id_rejects_malformed_text() {
    assert_eq!(CabinetId::parse(""), Err(Error::UuidParseFailure));
    assert_eq!(CabinetId::parse("42"), Err(Error::UuidParseFailure));
    assert_eq!(
        CabinetId::parse("67e55044-10b1-426f-9247-bb680e5fe0cg"),
        Err(Error::UuidParseFailure)
    );
    assert_eq!(
        CabinetId::parse("67e5504410b1-426f-9247-bb680e5fe0c8"),
        Err(Error::UuidParseFailure)
    );
}

#[test]
fn cabinet_id_from_parsed() {
    assert_eq!(CabinetId::from_parsed(Some(5)), Ok(CabinetId { value: 5 }));
    assert_eq!(CabinetId::from_parsed(None), Err(Error::UuidParseFailure));
}

#[test]
fn cabinet_id_round_trip() {
    assert_eq!(CabinetId::from_u128(u128::MAX).as_u128(), u128::MAX);
    assert_eq!(CabinetId::from_u128(0).as_u128(), 0);
}

#[test]
fn error_status_codes() {
    assert_eq!(Error::InvalidArgument.status_code(), 400);
    assert_eq!(Error::AlreadyQueued.status_code(), 400);
    assert_eq!(Error::NotQueued.status_code(), 400);
    assert_eq!(Error::AlreadyLast.status_code(), 400);
    assert_eq!(Error::UuidParseFailure.status_code(), 400);
    assert_eq!(Error::Conflict.status_code(), 500);
    assert_eq!(Error::NotFound.status_code(), 500);
    assert_eq!(Error::Internal.status_code(), 500);
}

#[test]
fn error_client_errors() {
    assert!(Error::InvalidArgument.is_client_error());
    assert!(Error::AlreadyQueued.is_client_error());
    assert!(Error::NotQueued.is_client_error());
    assert!(Error::AlreadyLast.is_client_error());
    assert!(Error::UuidParseFailure.is_client_error());
    assert!(!Error::Conflict.is_client_error());
    assert!(!Error::NotFound.is_client_error());
    assert!(!Error::Internal.is_client_error());
}

#[test]
fn error_messages() {
    assert_eq!(Error::InvalidArgument.message(), "n needed to be greater than 1");
    assert_eq!(Error::AlreadyQueued.message(), "player name already in queue");
    assert_eq!(Error::NotQueued.message(), "player name not in queue");
    assert_eq!(Error::AlreadyLast.message(), "player is already the last one in the queue");
    assert_eq!(Error::UuidParseFailure.message(), "failed to parse uuid");
    assert_eq!(Error::Conflict.message(), "an database error occurred or resource not found");
    assert_eq!(Error::NotFound.message(), "an database error occurred or resource not found");
    assert_eq!(Error::Internal.message(), "an unspecified internal error occurred");
}

#[test]
fn status_defaults_to_success() {
    assert_eq!(Status::default(), Status::Success);
}

#[test]
fn response_success_holds_content() {
    let r = Response::success(7u8);
    assert_eq!(r, Response { status: Status::Success, error: None, content: Some(7u8) });
}

#[test]
fn response_error_holds_message() {
    let r: Response<u8> = Response::error("boom".to_string());
    assert_eq!(
        r,
        Response { status: Status::Error, error: Some("boom".to_string()), content: None }
    );
}

#[test]
fn response_default_is_empty_success() {
    let r: Response<()> = Response::default();
    assert_eq!(r, Response { status: Status::Success, error: None, content: None });
}

#[test]
fn args_defaults() {
    let args = Args { pg_url: "postgres://db".to_string(), port: None, host: None };
    assert_eq!(args.bind_host(), "localhost");
    assert_eq!(args.bind_port(), 8701);
    assert_eq!(DEFAULT_PORT, 8701);
    assert_eq!(MAX_CONNECTIONS, 10);
}

#[test]
fn args_given_values() {
    let args = Args {
        pg_url: "postgres://db".to_string(),
        port: Some(9000),
        host: Some("0.0.0.0".to_string()),
    };
    assert_eq!(args.bind_host(), "0.0.0.0");
    assert_eq!(args.bind_port(), 9000);
}
