use quasar::validation::{
    validate_cidr, validate_credential_name, validate_hostname, validate_ip,
    validate_master_password, validate_password, validate_path, validate_port,
    validate_username,
};

#[test]
fn test_validate_ip() {
    assert!(validate_ip("192.168.1.1").is_ok());
    assert!(validate_ip("10.0.0.1").is_ok());
    assert!(validate_ip("255.255.255.255").is_ok());
    assert!(validate_ip("0.0.0.0").is_ok());
    assert!(validate_ip("256.1.1.1").is_err());
    assert!(validate_ip("192.168.1").is_err());
    assert!(validate_ip("not-an-ip").is_err());
    // Leading zeros must be rejected
    assert!(validate_ip("001.002.003.004").is_err());
    assert!(validate_ip("192.168.01.1").is_err());
}

#[test]
fn test_validate_port() {
    assert!(validate_port(22).is_ok());
    assert!(validate_port(80).is_ok());
    assert!(validate_port(65535).is_ok());
    assert!(validate_port(0).is_err());
}

#[test]
fn test_validate_hostname() {
    assert!(validate_hostname("example.com").is_ok());
    assert!(validate_hostname("sub.example.com").is_ok());
    assert!(validate_hostname("localhost").is_ok());
    assert!(validate_hostname("").is_err());
    assert!(validate_hostname("invalid..hostname").is_err());
}

#[test]
fn test_validate_username() {
    assert!(validate_username("user").is_ok());
    assert!(validate_username("user_name").is_ok());
    assert!(validate_username("user-name").is_ok());
    assert!(validate_username("user123").is_ok());
    assert!(validate_username("john.doe").is_ok());
    assert!(validate_username("_apt").is_ok());
    assert!(validate_username("www-data").is_ok());
    assert!(validate_username("systemd-network").is_ok());
    assert!(validate_username("").is_err());
    assert!(validate_username("user@name").is_err());
    assert!(validate_username(&"a".repeat(65)).is_err());
}

#[test]
fn test_validate_cidr() {
    assert!(validate_cidr("192.168.1.0/24").is_ok());
    assert!(validate_cidr("10.0.0.0/8").is_ok());
    assert!(validate_cidr("172.16.0.0/12").is_ok());
    assert!(validate_cidr("192.168.1.0/33").is_err());
    assert!(validate_cidr("192.168.1.0").is_err());
}

#[test]
fn test_validate_credential_name() {
    assert!(validate_credential_name("Production Server").is_ok());
    assert!(validate_credential_name("a").is_ok());
    assert!(validate_credential_name("").is_err());
    assert!(validate_credential_name(&"a".repeat(101)).is_err());
}

#[test]
fn test_validate_password() {
    assert!(validate_password("password123").is_ok());
    assert!(validate_password("12345678").is_ok());
    assert!(validate_password("short").is_err());
}

#[test]
fn test_validate_master_password() {
    assert!(validate_master_password("SecurePass123!").is_ok());
    assert!(validate_master_password("short").is_err());
    assert!(validate_master_password("11chars!!!!").is_err());
}

#[test]
fn test_validate_path() {
    assert!(validate_path("/home/user/file.txt").is_ok());
    assert!(validate_path("C:\\Users\\file.txt").is_ok());
    assert!(validate_path("relative/path/file.txt").is_ok());
    assert!(validate_path("").is_err());
    assert!(validate_path("/home/user/../etc/passwd").is_err());
    assert!(validate_path("../secret").is_err());
    assert!(validate_path("file\0name").is_err());
}

#[test]
fn validation_error_messages_name_the_rule() {
    assert_eq!(validate_port(0), Err("Port must be between 1 and 65535".to_string()));
    assert!(validate_hostname(&"a".repeat(254)).is_err());
    assert!(validate_hostname(&"a".repeat(63)).is_ok());
    assert!(validate_hostname(&"a".repeat(64)).is_err());
    assert!(validate_hostname("-lead.example").is_err());
    assert!(validate_username(&"a".repeat(64)).is_ok());
    assert!(validate_cidr("192.168.1.0/32").is_ok());
    assert!(validate_cidr("300.1.1.0/8").is_err());
    assert!(validate_credential_name(&"a".repeat(100)).is_ok());
    assert!(validate_master_password("twelve chars").is_ok());
}

#[test]
fn length_limits_count_characters_not_bytes() {
    // 51 accented letters are 102 bytes but 51 characters.
    assert!(validate_credential_name(&"é".repeat(51)).is_ok());
    assert!(validate_credential_name(&"é".repeat(100)).is_ok());
    assert!(validate_credential_name(&"é".repeat(101)).is_err());
    // Four accented letters are 8 bytes but 4 characters.
    assert!(validate_password("éééé").is_err());
    assert!(validate_password("éééééééé").is_ok());
    assert!(validate_master_password(&"é".repeat(6)).is_err());
    assert!(validate_master_password(&"é".repeat(12)).is_ok());
}
