use transcode_cache::connection::{redis_client, redis_url};

#[test]
fn the_url_of_a_store() {
    assert_eq!(redis_url("localhost", "6379"), "redis://localhost:6379/");
    assert_eq!(redis_url("10.0.0.7", "7000"), "redis://10.0.0.7:7000/");
    assert_eq!(redis_url("", ""), "redis://:/");
}

#[test]
fn a_client_is_made_for_a_good_address() {
    let client = redis_client("localhost", "6379");
    assert!(client.is_ok());
    let info = format!("{:?}", client.unwrap());
    assert!(info.contains("localhost"), "{}", info);
    assert!(info.contains("6379"), "{}", info);
    assert!(redis_client("127.0.0.1", "6380").is_ok());
}

#[test]
fn a_bad_address_is_refused_with_its_url() {
    match redis_client("localhost", "no-port") {
        Ok(_) => panic!("a port has to be a number"),
        Err(refusal) => {
            assert_eq!(refusal.url, "redis://localhost:no-port/");
            assert!(!refusal.reason.is_empty());
        }
    }
    assert!(redis_client("", "6379").is_err());
    assert!(redis_client("localhost", "65536").is_err());
}
