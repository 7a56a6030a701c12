use l4s_bench::settings::{env_str, env_u16};

#[test]
fn u16_variable_is_read() {
    assert_eq!(env_u16("SENDER_PORT", Some("5201")), Ok(5201));
    assert_eq!(env_u16("SENDER_PORT", Some("0")), Ok(0));
    assert_eq!(env_u16("SENDER_PORT", Some("65535")), Ok(65535));
}

#[test]
fn invalid_u16_variable() {
    let msg = "SENDER_PORT environment variable must be set and a valid u16".to_string();
    assert_eq!(env_u16("SENDER_PORT", Some("65536")), Err(msg.clone()));
    assert_eq!(env_u16("SENDER_PORT", Some("")), Err(msg.clone()));
    assert_eq!(env_u16("SENDER_PORT", Some("-1")), Err(msg.clone()));
    assert_eq!(env_u16("SENDER_PORT", Some(" 80")), Err(msg));
}

#[test]
fn unset_variables() {
    assert_eq!(env_u16("DESTINATION_PORT", None), Err("DESTINATION_PORT environment variable must be set".to_string()));
    assert_eq!(env_str("CLIENT_NAME", None), Err("CLIENT_NAME environment variable must be set".to_string()));
    assert_eq!(env_str("CLIENT_NAME", Some("c1".to_string())), Ok("c1".to_string()));
}
