use rori_utils::client::{ConfigServer, RoriClient};
use rori_utils::data::RoriData;
use rori_utils::endpoint::{
    process_incoming, AuthorizedUser, EndpointDetails, RoriEndpoint, RoriServer,
};

// hex-encoded SHA-256 digest of "s3cret"
const S3CRET_HASH: &str = "1ec1c26b50d5d3c58d9583181af8076655fe00756bf7285940ba3670f99fcba0";

fn endpoint_with(authorize: Vec<AuthorizedUser>) -> RoriEndpoint {
    RoriEndpoint {
        address: String::from("127.0.0.1:4000"),
        rori_address: String::from("127.0.0.1:1412"),
        is_registered: false,
        owner: String::from("owner"),
        name: String::from("endpoint"),
        compatible_types: String::from("text"),
        cert: String::new(),
        key: String::new(),
        secret: String::from("s3cret"),
        authorize,
    }
}

fn msg(author: &str, content: &str, client: &str, datatype: &str, secret: &str) -> RoriData {
    RoriData::new(
        String::from(author),
        String::from(content),
        String::from(client),
        String::from(datatype),
        String::from(secret),
    )
}

#[test]
fn authorized_case_insensitive_match() {
    let endpoint = endpoint_with(vec![AuthorizedUser {
        name: Some(String::from("bot")),
        secret: Some(String::from(S3CRET_HASH)),
    }]);
    let data = msg("u", "hi", "Bot", "text", "s3cret");
    assert!(endpoint.is_authorized(data));
}

#[test]
fn authorized_uppercase_stored_hash() {
    let endpoint = endpoint_with(vec![AuthorizedUser {
        name: Some(String::from("Bot")),
        secret: Some(S3CRET_HASH.to_uppercase()),
    }]);
    let data = msg("u", "hi", "bot", "text", "s3cret");
    assert!(endpoint.is_authorized(data));
}

#[test]
fn wrong_secret_denied() {
    let endpoint = endpoint_with(vec![AuthorizedUser {
        name: Some(String::from("bot")),
        secret: Some(String::from(S3CRET_HASH)),
    }]);
    let data = msg("u", "hi", "bot", "text", "wrong");
    assert!(!endpoint.is_authorized(data));
}

#[test]
fn wrong_name_denied() {
    let endpoint = endpoint_with(vec![AuthorizedUser {
        name: Some(String::from("bot")),
        secret: Some(String::from(S3CRET_HASH)),
    }]);
    let data = msg("u", "hi", "other", "text", "s3cret");
    assert!(!endpoint.is_authorized(data));
}

#[test]
fn empty_authorize_list_denies() {
    let endpoint = endpoint_with(vec![]);
    let data = msg("u", "hi", "bot", "text", "s3cret");
    assert!(!endpoint.is_authorized(data));
}

#[test]
fn address_sentinel_on_empty_config() {
    let addr = RoriClient::parse_config(ConfigServer { ip: None, port: None });
    assert_eq!(addr, ":");
    let addr2 = RoriClient::parse_config(ConfigServer {
        ip: Some(String::new()),
        port: Some(String::new()),
    });
    assert_eq!(addr2, ":");
}

#[test]
fn address_formed_from_parts() {
    let addr = RoriClient::parse_config(ConfigServer {
        ip: Some(String::from("127.0.0.1")),
        port: Some(String::from("1412")),
    });
    assert_eq!(addr, "127.0.0.1:1412");
}

#[test]
fn endpoint_new_fills_fields() {
    let endpoint = RoriEndpoint::new(
        ConfigServer {
            ip: Some(String::from("0.0.0.0")),
            port: Some(String::from("4000")),
        },
        RoriServer {
            rori_ip: Some(String::from("127.0.0.1")),
            rori_port: Some(String::from("1412")),
            cert: None,
            key: None,
            secret: Some(String::from("s3cret")),
            authorize: vec![],
        },
        EndpointDetails {
            owner: Some(String::from("owner")),
            name: Some(String::from("endpoint")),
            compatible_types: Some(String::from("text")),
        },
    );
    assert_eq!(endpoint.address, "0.0.0.0:4000");
    assert_eq!(endpoint.rori_address, "127.0.0.1:1412");
    assert!(!endpoint.is_registered);
    assert_eq!(endpoint.owner, "owner");
    assert_eq!(endpoint.name, "endpoint");
    assert_eq!(endpoint.compatible_types, "text");
    assert_eq!(endpoint.cert, "");
    assert_eq!(endpoint.secret, "s3cret");
}

#[test]
fn endpoint_new_sentinel_addresses() {
    let endpoint = RoriEndpoint::new(
        ConfigServer { ip: None, port: None },
        RoriServer {
            rori_ip: None,
            rori_port: None,
            cert: None,
            key: None,
            secret: None,
            authorize: vec![],
        },
        EndpointDetails { owner: None, name: None, compatible_types: None },
    );
    assert_eq!(endpoint.address, ":");
    assert_eq!(endpoint.rori_address, ":");
}

#[test]
fn registration_message_shape() {
    let endpoint = endpoint_with(vec![]);
    let reg = endpoint.registration_data();
    assert_eq!(reg.author, "owner");
    assert_eq!(reg.content, "127.0.0.1:4000|text");
    assert_eq!(reg.client, "endpoint");
    assert_eq!(reg.datatype, "register");
    assert_eq!(reg.secret, "s3cret");
}

#[test]
fn text_message_is_enqueued() {
    let payload = msg("u", "hi", "c", "text", "").to_string();
    let mut queue: Vec<String> = Vec::new();
    assert!(process_incoming(payload, &mut queue).is_ok());
    assert_eq!(queue, vec![String::from("hi")]);
}

#[test]
fn register_message_is_not_enqueued() {
    let payload = msg("u", "127.0.0.1:4000|text", "c", "register", "").to_string();
    let mut queue: Vec<String> = Vec::new();
    assert!(process_incoming(payload, &mut queue).is_ok());
    assert!(queue.is_empty());
}

#[test]
fn malformed_blob_changes_nothing() {
    let mut queue: Vec<String> = vec![String::from("kept")];
    assert!(process_incoming(String::from("{ not a message }"), &mut queue).is_err());
    assert_eq!(queue, vec![String::from("kept")]);
}

#[test]
fn queue_keeps_arrival_order() {
    let mut queue: Vec<String> = Vec::new();
    for text in ["one", "two", "three"] {
        let payload = msg("u", text, "c", "text", "").to_string();
        assert!(process_incoming(payload, &mut queue).is_ok());
    }
    assert_eq!(queue, vec!["one", "two", "three"]);
}
