use maas360_client::errors::ClientError;
use maas360_client::region::get_base_url;

#[test]
fn region_one_maps_to_fiberlink() {
    assert_eq!(get_base_url("1098765"), Ok("https://services.fiberlink.com/"));
}

#[test]
fn region_two_maps_to_m2() {
    assert_eq!(get_base_url("2001"), Ok("https://services.m2.maas360.com/"));
}

#[test]
fn region_three_maps_to_m3() {
    assert_eq!(get_base_url("30"), Ok("https://services.m3.maas360.com/"));
}

#[test]
fn region_four_maps_to_m4() {
    assert_eq!(get_base_url("4"), Ok("https://services.m4.maas360.com/"));
}

#[test]
fn region_six_maps_to_m6() {
    assert_eq!(get_base_url("60000001"), Ok("https://services.m6.maas360.com/"));
}

#[test]
fn region_unknown_leading_character_fails() {
    assert_eq!(get_base_url("5123"), Err(ClientError::UnknownRegion));
    assert_eq!(get_base_url("09"), Err(ClientError::UnknownRegion));
    assert_eq!(get_base_url("x1"), Err(ClientError::UnknownRegion));
}

#[test]
fn region_empty_billing_id_fails() {
    assert_eq!(get_base_url(""), Err(ClientError::EmptyBillingId));
}

#[test]
fn region_only_first_character_counts() {
    assert_eq!(get_base_url("1zzz"), Ok("https://services.fiberlink.com/"));
}

#[test]
fn error_descriptions_match_the_failure() {
    assert_eq!(ClientError::EmptyBillingId.describe(), "No Billing ID entered");
    assert_eq!(ClientError::UnknownRegion.describe(), "Billing ID is incorrect");
    assert!(!ClientError::HttpStatus(401).describe().is_empty());
    assert!(!ClientError::MalformedResponse.describe().is_empty());
}
