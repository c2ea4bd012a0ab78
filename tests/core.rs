use rasn::asn::{Asn, AsnInfo, RasnError, Result};
use rasn::client::{parse_response, ApiError, ApiResponse};
use rasn::dns::CacheStats;
use rasn::geoip::GeoIpClient;
use rasn::mcp::McpError;
use rasn::security::{KeyManager, SecurityError};

#[test]
fn test_asn_creation() {
    let asn = Asn(15169);
    assert_eq!(asn.0, 15169);
}

#[test]
fn test_asn_display() {
    let asn = Asn(15169);
    assert_eq!(asn.to_string(), "AS15169");
    assert_eq!(Asn(0).to_string(), "AS0");
    assert_eq!(Asn(u32::MAX).to_string(), "AS4294967295");
}

#[test]
fn test_asn_from_u32() {
    let asn: Asn = 15169.into();
    assert_eq!(asn, Asn(15169));
}

#[test]
fn test_asn_equality() {
    let asn1 = Asn(15169);
    let asn2 = Asn(15169);
    let asn3 = Asn(13335);

    assert_eq!(asn1, asn2);
    assert_ne!(asn1, asn3);
}

#[test]
fn test_asn_ordering() {
    let asn1 = Asn(100);
    let asn2 = Asn(200);

    assert!(asn1 < asn2);
    assert!(asn2 > asn1);
}

#[test]
fn test_asn_info_creation() {
    let info = AsnInfo {
        asn: Asn(15169),
        organization: "Google LLC".to_string(),
        country: Some("US".to_string()),
        description: Some("Google".to_string()),
    };

    assert_eq!(info.asn, Asn(15169));
    assert_eq!(info.organization, "Google LLC");
    assert_eq!(info.country, Some("US".to_string()));
}

#[test]
fn test_error_display() {
    let err = RasnError::InvalidAsn("12345X".to_string());
    assert_eq!(err.to_string(), "Invalid ASN: 12345X");

    let err = RasnError::NotFound("AS99999".to_string());
    assert_eq!(err.to_string(), "Not found: AS99999");
}

#[test]
fn error_text_of_other_kinds() {
    assert_eq!(RasnError::Other("plain".to_string()).to_string(), "plain");
    assert_eq!(RasnError::Parse("x".to_string()).to_string(), "Parse error: x");
    let io = std::io::Error::new(std::io::ErrorKind::Other, "disk");
    assert_eq!(RasnError::Io(io).to_string(), "I/O error: disk");
}

#[test]
fn test_result_type() {
    let result: Result<Asn> = Ok(Asn(15169));
    assert!(result.is_ok());
    assert_eq!(result.unwrap(), Asn(15169));
}

#[test]
fn test_key_manager_creation() {
    let _manager = KeyManager::new();
}

#[test]
fn test_validate_key() {
    let manager = KeyManager::new();

    assert!(manager.validate_key("test_key_12345").is_ok());

    assert!(manager.validate_key("").is_err());

    assert!(manager.validate_key("short").is_err());
}

#[test]
fn validate_key_boundary() {
    let manager = KeyManager::default();
    assert!(matches!(manager.validate_key("1234567"), Err(SecurityError::InvalidKey(_))));
    assert!(manager.validate_key("12345678").is_ok());
}

#[test]
fn test_masked_key() {
    let manager = KeyManager::new();

    let masked = manager.get_masked_key(Some("test_key_12345678")).unwrap();
    assert!(masked.contains("test"));
    assert!(masked.contains("5678"));
    assert!(masked.contains("..."));
    assert_eq!(masked, "test...5678");
}

#[test]
fn masked_key_short_and_missing() {
    let manager = KeyManager::new();
    assert_eq!(manager.get_masked_key(Some("12345678")).unwrap(), "****");
    assert_eq!(manager.get_masked_key(Some("123456789")).unwrap(), "1234...6789");
    assert!(matches!(manager.get_masked_key(None), Err(SecurityError::KeyNotFound)));
}

#[test]
fn test_is_loaded() {
    let client = GeoIpClient::new();
    assert!(!client.is_loaded());

    let client_with_db = GeoIpClient::with_database("/path/to/db.mmdb".to_string());
    assert!(client_with_db.is_loaded());
}

#[test]
fn lib_test_client_creation() {
    let _client = GeoIpClient::new();
}

#[test]
fn test_client_with_database() {
    let client = GeoIpClient::with_database("/path/to/db.mmdb".to_string());
    assert!(client.is_loaded());
}

#[test]
fn test_parse_response() {
    let response = ApiResponse {
        asn_number: Some(15169),
        organization: "Google".to_string(),
        country: Some("US".to_string()),
        description: Some("Google LLC".to_string()),
    };

    let info = parse_response(response, "8.8.8.8").unwrap();
    assert_eq!(info.asn.0, 15169);
    assert_eq!(info.organization, "Google");
}

#[test]
fn test_parse_response_no_asn() {
    let response = ApiResponse {
        asn_number: None,
        organization: "Unknown".to_string(),
        country: None,
        description: None,
    };

    let result = parse_response(response, "192.168.1.1");
    assert!(result.is_err());
    assert!(matches!(result.unwrap_err(), ApiError::NotFound(_)));
}

#[test]
fn test_cache_stats_hit_rate() {
    let stats = CacheStats {
        hits: 90,
        misses: 10,
        size: 50,
        capacity: 100,
    };
    let (hits, total) = stats.hit_rate_ratio();
    assert_eq!((hits as f64 / total as f64) * 100.0, 90.0);

    let empty_stats = CacheStats::default();
    assert_eq!(empty_stats.hit_rate_ratio(), (0, 0));
}

#[test]
fn rpc_error_codes() {
    assert_eq!(McpError::ParseError("p".to_string()).rpc_error().0, -32700);
    assert_eq!(McpError::InvalidRequest("i".to_string()).rpc_error().0, -32600);
    let (code, msg) = McpError::MethodNotFound("unknown_method".to_string()).rpc_error();
    assert_eq!(code, -32601);
    assert_eq!(msg, "unknown_method");
    assert_eq!(McpError::InternalError("x".to_string()).rpc_error().0, -32603);
    assert_eq!(McpError::ArrowError("x".to_string()).rpc_error().0, -32603);
}
