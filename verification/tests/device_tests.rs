use maas360_client::devices::{
    authorization_header, device_url, interpret_device_reply, parse_device_list, Value,
};
use maas360_client::errors::ClientError;

fn record(imei: &str, rest: &str) -> String {
    let head = "{\"maas360DeviceID\":\"id1\",\"deviceName\":\"phone\",\"customAssetNumber\":\"a1\",\"ownership\":\"corp\",\"deviceOwner\":\"owner\",\"username\":\"user\",\"emailAddress\":\"u@example.com\",\"platformName\":\"Android\",\"sourceID\":1,\"deviceType\":\"Smartphone\",\"manufacturer\":\"Acme\",\"model\":\"X1\",\"osName\":\"Android 12\",\"osServicePack\":\"sp1\",\"imeiEsn\":";
    let mid = ",\"installedDate\":\"2021-01-01\",\"lastReported\":\"2021-06-01\",\"installedDateInEpochms\":1609459200000,\"lastReportedInEpochms\":1622505600000,\"deviceStatus\":\"Active\",\"maas360ManagedStatus\":\"Managed\",\"udid\":\"udid1\",\"wifiMacAddress\":\"00:11:22:33:44:55\",\"mailboxDeviceId\":\"mb1\",\"mailboxLastReported\":\"2021-06-01\",\"mailboxLastReportedInEpochms\":";
    let tail = ",\"mailboxManaged\":\"Yes\",\"isSupervisedDevice\":true,\"testDevice\":false,\"unifiedTravelerDeviceId\":\"utd1\"}";
    format!("{}{}{}{}{}", head, imei, mid, rest, tail)
}

fn page(records: &[String]) -> String {
    format!(
        "{{\"devices\":{{\"device\":[{}],\"count\":{},\"pageNumber\":1,\"pageSize\":50}}}}",
        records.join(","),
        records.len()
    )
}

#[test]
fn imei_esn_parses_as_integer_and_as_string() {
    let body = page(&[record("123456789012345", "0"), record("\"A1B2C3\"", "\"7\"")]);
    let root = parse_device_list(&body).unwrap();
    let devs = &root.devices.device;
    assert_eq!(devs.len(), 2);
    assert!(matches!(devs[0].imei_esn, Value::Int(123456789012345)));
    assert!(matches!(devs[1].imei_esn, Value::Str(ref s) if s == "A1B2C3"));
    assert!(matches!(devs[0].mailbox_last_reported_in_epochms, Value::Int(0)));
    assert!(matches!(devs[1].mailbox_last_reported_in_epochms, Value::Str(ref s) if s == "7"));
}

#[test]
fn device_fields_carry_their_values() {
    let body = page(&[record("5", "6")]);
    let root = parse_device_list(&body).unwrap();
    assert_eq!(root.devices.count, 1);
    assert_eq!(root.devices.page_number, 1);
    assert_eq!(root.devices.page_size, 50);
    let d = &root.devices.device[0];
    assert_eq!(d.maas360_device_id, "id1");
    assert_eq!(d.device_name, "phone");
    assert_eq!(d.source_id, 1);
    assert_eq!(d.installed_date_in_epochms, 1609459200000);
    assert_eq!(d.last_reported_in_epochms, 1622505600000);
    assert_eq!(d.device_status, "Active");
    assert!(d.is_supervised_device);
    assert!(!d.test_device);
}

#[test]
fn empty_device_array_parses() {
    let body = "{\"devices\":{\"device\":[],\"count\":0,\"pageNumber\":1,\"pageSize\":50}}";
    let root = parse_device_list(body).unwrap();
    assert_eq!(root.devices.device.len(), 0);
    assert_eq!(root.devices.count, 0);
}

#[test]
fn missing_device_field_is_a_schema_error() {
    let body = "{\"devices\":{\"device\":[{\"deviceName\":\"phone\"}],\"count\":1,\"pageNumber\":1,\"pageSize\":50}}";
    assert_eq!(parse_device_list(body).unwrap_err(), ClientError::MalformedResponse);
}

#[test]
fn missing_paging_field_is_a_schema_error() {
    let body = "{\"devices\":{\"device\":[],\"count\":0,\"pageNumber\":1}}";
    assert_eq!(parse_device_list(body).unwrap_err(), ClientError::MalformedResponse);
}

#[test]
fn device_reply_on_non_200_is_absent_not_fatal() {
    assert!(interpret_device_reply(401, "whatever").unwrap().is_none());
    assert!(interpret_device_reply(500, "").unwrap().is_none());
}

#[test]
fn device_reply_on_200_garbage_is_a_schema_error() {
    assert!(matches!(
        interpret_device_reply(200, "oops"),
        Err(ClientError::MalformedResponse)
    ));
}

#[test]
fn device_reply_on_200_returns_the_page() {
    let body = page(&[record("5", "6")]);
    let root = interpret_device_reply(200, &body).unwrap().unwrap();
    assert_eq!(root.devices.device.len(), 1);
}

#[test]
fn devices_object_members_parse_in_any_order() {
    let body = format!(
        "{{\"devices\":{{\"count\":1,\"pageNumber\":1,\"pageSize\":50,\"device\":[{}]}}}}",
        record("5", "6")
    );
    let root = parse_device_list(&body).unwrap();
    assert_eq!(root.devices.count, 1);
    assert_eq!(root.devices.device.len(), 1);
}

#[test]
fn devices_body_ignores_unknown_members_of_any_shape() {
    let body = "{\"meta\":{\"a\":[1]},\"devices\":{\"count\":0,\"extra\":[{\"b\":2}],\"device\":[],\"pageNumber\":1,\"pageSize\":50},\"z\":null}";
    let root = parse_device_list(body).unwrap();
    assert_eq!(root.devices.device.len(), 0);
    assert_eq!(root.devices.count, 0);
}

#[test]
fn device_record_ignores_unknown_nested_members() {
    let rec = record("5", "6");
    let patched = rec.replacen(
        "\"deviceName\":\"phone\",",
        "\"deviceName\":\"phone\",\"extras\":{\"deep\":[{\"x\":1}]},",
        1,
    );
    let body = page(&[patched]);
    let root = parse_device_list(&body).unwrap();
    assert_eq!(root.devices.device[0].device_name, "phone");
}

#[test]
fn devices_body_without_device_array_is_schema_error() {
    let body = "{\"devices\":{\"count\":0,\"pageNumber\":1,\"pageSize\":50}}";
    assert_eq!(parse_device_list(body).unwrap_err(), ClientError::MalformedResponse);
}

#[test]
fn device_url_fixes_the_active_status_filter() {
    assert_eq!(
        device_url("https://services.m2.maas360.com/", "2001"),
        "https://services.m2.maas360.com/device-apis/devices/1.0/search/2001?deviceStatus=Active"
    );
}

#[test]
fn authorization_header_wraps_the_token() {
    assert_eq!(authorization_header("abc123"), "MaaS token=\"abc123\"");
}

#[test]
fn integer_fields_out_of_range_are_schema_errors() {
    let body = "{\"devices\":{\"device\":[],\"count\":99999999999,\"pageNumber\":1,\"pageSize\":50}}";
    assert_eq!(parse_device_list(body).unwrap_err(), ClientError::MalformedResponse);
}
