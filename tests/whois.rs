use rasn::asn::Asn;
use rasn::whois::{WhoisClient, WhoisResponse};
use std::time::Duration;

#[test]
fn test_client_creation() {
    let client = WhoisClient::new();
    assert_eq!(client.timeout(), Duration::from_millis(500));
}

#[test]
fn test_custom_timeout() {
    let client = WhoisClient::with_timeout(Duration::from_secs(1));
    assert_eq!(client.timeout(), Duration::from_secs(1));
}

#[test]
fn test_extract_field() {
    let response = "OrgName: Google LLC\nOrgId: GOGL\nRegDate: 2000-03-30";

    assert_eq!(
        WhoisClient::extract_field(response, "OrgName:"),
        Some("Google LLC".to_string())
    );
    assert_eq!(
        WhoisClient::extract_field(response, "OrgId:"),
        Some("GOGL".to_string())
    );
    assert_eq!(
        WhoisClient::extract_field(response, "RegDate:"),
        Some("2000-03-30".to_string())
    );
    assert_eq!(WhoisClient::extract_field(response, "NotFound:"), None);
}

#[test]
fn extract_field_edges() {
    let response = "Comment: x\r\nUpdated:  2024-01-15 \r\nOrgTechEmail: a:b\n";
    assert_eq!(WhoisClient::extract_field(response, "Updated:"), Some("2024-01-15".to_string()));
    assert_eq!(WhoisClient::extract_field(response, "OrgTechEmail:"), Some("a".to_string()));
    assert_eq!(WhoisClient::extract_field("OrgName", "OrgName"), None);
    assert_eq!(WhoisClient::extract_field("", "OrgName:"), None);
    assert_eq!(
        WhoisClient::extract_field("x\nOrgName:\u{3000}Acme\t\n", "OrgName:"),
        Some("Acme".to_string())
    );
}

#[test]
fn response_fields_are_read_out() {
    let raw = "OrgName: Google LLC\nOrgId: GOGL\nOrgAbuseEmail: abuse@google.com\n".to_string();
    let r = WhoisClient::response_from(15169, raw.clone());
    assert_eq!(r.asn, Asn(15169));
    assert_eq!(r.org_name, Some("Google LLC".to_string()));
    assert_eq!(r.org_id, Some("GOGL".to_string()));
    assert_eq!(r.admin_contact, Some("abuse@google.com".to_string()));
    assert_eq!(r.tech_contact, None);
    assert_eq!(r.raw_response, raw);
}

#[test]
fn query_text_names_the_asn() {
    assert_eq!(WhoisClient::query_text(15169), "AS15169\r\n");
}

#[test]
fn test_server_configs() {
    let servers = WhoisClient::available_servers();
    assert_eq!(servers.len(), 3);
    assert_eq!(servers[0].host, "whois.arin.net");
    assert_eq!(servers[1].host, "whois.ripe.net");
    assert_eq!(servers[2].host, "whois.apnic.net");
    assert!(servers.iter().all(|s| s.port == 43));
}

#[test]
fn test_whois_response_creation() {
    let response = WhoisResponse {
        asn: Asn(15169),
        org_name: Some("Google LLC".to_string()),
        org_id: Some("GOGL".to_string()),
        reg_date: Some("2000-03-30".to_string()),
        update_date: Some("2024-01-15".to_string()),
        admin_contact: Some("admin@google.com".to_string()),
        tech_contact: Some("tech@google.com".to_string()),
        raw_response: "test".to_string(),
    };

    assert_eq!(response.asn.0, 15169);
    assert_eq!(response.org_name.unwrap(), "Google LLC");
}
