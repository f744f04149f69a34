use vstd::prelude::*;
use crate::errors::ClientError;
use crate::scan::{
    skip_ws, scan_string, scan_lit, scan_objs, skip_value, lookup, LitV, Lit,
    lemma_skip_ws_bounds, lemma_scan_string_advances, lemma_scan_lit_advances,
    skip_ws_exec, scan_string_exec, scan_lit_exec, scan_objs_exec, skip_value_exec,
    member_views, objs_views, find_lit, eq_str, to_chars,
};

verus! {

/// One wire-level field the vendor encodes inconsistently: sometimes an
/// integer, sometimes a string.
#[derive(Debug)]
pub enum Value {
    Int(i64),
    Str(String),
}

/// The mathematical counterpart of `Value`.
pub enum ValueV {
    Int(i64),
    Str(Seq<char>),
}

/// The mathematical value a `Value` stands for.
pub open spec fn value_view(v: Value) -> ValueV {
    match v {
        Value::Int(n) => ValueV::Int(n),
        Value::Str(t) => ValueV::Str(t@),
    }
}

/// One device record of the device-list response.
#[derive(Debug)]
pub struct Device {
    pub maas360_device_id: String,
    pub device_name: String,
    pub custom_asset_number: String,
    pub ownership: String,
    pub device_owner: String,
    pub username: String,
    pub email_address: String,
    pub platform_name: String,
    pub source_id: i32,
    pub device_type: String,
    pub manufacturer: String,
    pub model: String,
    pub os_name: String,
    pub os_service_pack: String,
    pub imei_esn: Value,
    pub installed_date: String,
    pub last_reported: String,
    pub installed_date_in_epochms: i64,
    pub last_reported_in_epochms: i64,
    pub device_status: String,
    pub maas360_managed_status: String,
    pub udid: String,
    pub wifi_mac_address: String,
    pub mailbox_device_id: String,
    pub mailbox_last_reported: String,
    pub mailbox_last_reported_in_epochms: Value,
    pub mailbox_managed: String,
    pub is_supervised_device: bool,
    pub test_device: bool,
    pub unified_traveler_device_id: String,
}

/// The mathematical counterpart of `Device`.
pub struct DeviceV {
    pub maas360_device_id: Seq<char>,
    pub device_name: Seq<char>,
    pub custom_asset_number: Seq<char>,
    pub ownership: Seq<char>,
    pub device_owner: Seq<char>,
    pub username: Seq<char>,
    pub email_address: Seq<char>,
    pub platform_name: Seq<char>,
    pub source_id: i32,
    pub device_type: Seq<char>,
    pub manufacturer: Seq<char>,
    pub model: Seq<char>,
    pub os_name: Seq<char>,
    pub os_service_pack: Seq<char>,
    pub imei_esn: ValueV,
    pub installed_date: Seq<char>,
    pub last_reported: Seq<char>,
    pub installed_date_in_epochms: i64,
    pub last_reported_in_epochms: i64,
    pub device_status: Seq<char>,
    pub maas360_managed_status: Seq<char>,
    pub udid: Seq<char>,
    pub wifi_mac_address: Seq<char>,
    pub mailbox_device_id: Seq<char>,
    pub mailbox_last_reported: Seq<char>,
    pub mailbox_last_reported_in_epochms: ValueV,
    pub mailbox_managed: Seq<char>,
    pub is_supervised_device: bool,
    pub test_device: bool,
    pub unified_traveler_device_id: Seq<char>,
}

/// The mathematical value a `Device` stands for.
pub open spec fn device_view(d: Device) -> DeviceV {
    DeviceV {
        maas360_device_id: d.maas360_device_id@,
        device_name: d.device_name@,
        custom_asset_number: d.custom_asset_number@,
        ownership: d.ownership@,
        device_owner: d.device_owner@,
        username: d.username@,
        email_address: d.email_address@,
        platform_name: d.platform_name@,
        source_id: d.source_id,
        device_type: d.device_type@,
        manufacturer: d.manufacturer@,
        model: d.model@,
        os_name: d.os_name@,
        os_service_pack: d.os_service_pack@,
        imei_esn: value_view(d.imei_esn),
        installed_date: d.installed_date@,
        last_reported: d.last_reported@,
        installed_date_in_epochms: d.installed_date_in_epochms,
        last_reported_in_epochms: d.last_reported_in_epochms,
        device_status: d.device_status@,
        maas360_managed_status: d.maas360_managed_status@,
        udid: d.udid@,
        wifi_mac_address: d.wifi_mac_address@,
        mailbox_device_id: d.mailbox_device_id@,
        mailbox_last_reported: d.mailbox_last_reported@,
        mailbox_last_reported_in_epochms: value_view(d.mailbox_last_reported_in_epochms),
        mailbox_managed: d.mailbox_managed@,
        is_supervised_device: d.is_supervised_device,
        test_device: d.test_device,
        unified_traveler_device_id: d.unified_traveler_device_id@,
    }
}

/// The page of devices the endpoint returns: the records plus the count and
/// paging numbers.
#[derive(Debug)]
pub struct Devices {
    pub device: Vec<Device>,
    pub count: i32,
    pub page_number: i32,
    pub page_size: i32,
}

/// The outermost layer of the device-list response.
#[derive(Debug)]
pub struct Root {
    pub devices: Devices,
}

/// The mathematical counterpart of `Devices`.
pub struct DevicesV {
    pub device: Seq<DeviceV>,
    pub count: i32,
    pub page_number: i32,
    pub page_size: i32,
}

/// The mathematical counterpart of `Root`.
pub struct RootV {
    pub devices: DevicesV,
}

/// The mathematical value a `Root` stands for.
pub open spec fn root_view(r: Root) -> RootV {
    RootV {
        devices: DevicesV {
            device: r.devices.device@.map_values(|d: Device| device_view(d)),
            count: r.devices.count,
            page_number: r.devices.page_number,
            page_size: r.devices.page_size,
        },
    }
}

// ---------------------------------------------------------------------------
// Required fields of each type
// ---------------------------------------------------------------------------

/// A required string field.
pub open spec fn req_str(ms: Seq<(Seq<char>, LitV)>, key: Seq<char>) -> Option<Seq<char>> {
    match lookup(ms, key) {
        Some(LitV::Str(t)) => Some(t),
        _ => None,
    }
}

/// A required 64-bit integer field.
pub open spec fn req_i64(ms: Seq<(Seq<char>, LitV)>, key: Seq<char>) -> Option<i64> {
    match lookup(ms, key) {
        Some(LitV::Int(n)) => Some(n),
        _ => None,
    }
}

/// A required 32-bit integer field.
pub open spec fn req_i32(ms: Seq<(Seq<char>, LitV)>, key: Seq<char>) -> Option<i32> {
    match lookup(ms, key) {
        Some(LitV::Int(n)) => if i32::MIN as i64 <= n <= i32::MAX as i64 {
            Some(n as i32)
        } else {
            None
        },
        _ => None,
    }
}

/// A required boolean field.
pub open spec fn req_bool(ms: Seq<(Seq<char>, LitV)>, key: Seq<char>) -> Option<bool> {
    match lookup(ms, key) {
        Some(LitV::Bool(b)) => Some(b),
        _ => None,
    }
}

/// A required union field: an integer or a string.
pub open spec fn req_val(ms: Seq<(Seq<char>, LitV)>, key: Seq<char>) -> Option<ValueV> {
    match lookup(ms, key) {
        Some(LitV::Int(n)) => Some(ValueV::Int(n)),
        Some(LitV::Str(t)) => Some(ValueV::Str(t)),
        _ => None,
    }
}

/// Whether a record's members carry every device field with its type.
pub open spec fn device_ok(ms: Seq<(Seq<char>, LitV)>) -> bool {
    &&& req_str(ms, "maas360DeviceID"@) is Some
    &&& req_str(ms, "deviceName"@) is Some
    &&& req_str(ms, "customAssetNumber"@) is Some
    &&& req_str(ms, "ownership"@) is Some
    &&& req_str(ms, "deviceOwner"@) is Some
    &&& req_str(ms, "username"@) is Some
    &&& req_str(ms, "emailAddress"@) is Some
    &&& req_str(ms, "platformName"@) is Some
    &&& req_i32(ms, "sourceID"@) is Some
    &&& req_str(ms, "deviceType"@) is Some
    &&& req_str(ms, "manufacturer"@) is Some
    &&& req_str(ms, "model"@) is Some
    &&& req_str(ms, "osName"@) is Some
    &&& req_str(ms, "osServicePack"@) is Some
    &&& req_val(ms, "imeiEsn"@) is Some
    &&& req_str(ms, "installedDate"@) is Some
    &&& req_str(ms, "lastReported"@) is Some
    &&& req_i64(ms, "installedDateInEpochms"@) is Some
    &&& req_i64(ms, "lastReportedInEpochms"@) is Some
    &&& req_str(ms, "deviceStatus"@) is Some
    &&& req_str(ms, "maas360ManagedStatus"@) is Some
    &&& req_str(ms, "udid"@) is Some
    &&& req_str(ms, "wifiMacAddress"@) is Some
    &&& req_str(ms, "mailboxDeviceId"@) is Some
    &&& req_str(ms, "mailboxLastReported"@) is Some
    &&& req_val(ms, "mailboxLastReportedInEpochms"@) is Some
    &&& req_str(ms, "mailboxManaged"@) is Some
    &&& req_bool(ms, "isSupervisedDevice"@) is Some
    &&& req_bool(ms, "testDevice"@) is Some
    &&& req_str(ms, "unifiedTravelerDeviceId"@) is Some
}

/// Builds the device a record's members stand for, when every field is
/// present with its type.
pub open spec fn device_fields(ms: Seq<(Seq<char>, LitV)>) -> Option<DeviceV> {
    if device_ok(ms) {
        Some(
            DeviceV {
                maas360_device_id: req_str(ms, "maas360DeviceID"@).unwrap(),
                device_name: req_str(ms, "deviceName"@).unwrap(),
                custom_asset_number: req_str(ms, "customAssetNumber"@).unwrap(),
                ownership: req_str(ms, "ownership"@).unwrap(),
                device_owner: req_str(ms, "deviceOwner"@).unwrap(),
                username: req_str(ms, "username"@).unwrap(),
                email_address: req_str(ms, "emailAddress"@).unwrap(),
                platform_name: req_str(ms, "platformName"@).unwrap(),
                source_id: req_i32(ms, "sourceID"@).unwrap(),
                device_type: req_str(ms, "deviceType"@).unwrap(),
                manufacturer: req_str(ms, "manufacturer"@).unwrap(),
                model: req_str(ms, "model"@).unwrap(),
                os_name: req_str(ms, "osName"@).unwrap(),
                os_service_pack: req_str(ms, "osServicePack"@).unwrap(),
                imei_esn: req_val(ms, "imeiEsn"@).unwrap(),
                installed_date: req_str(ms, "installedDate"@).unwrap(),
                last_reported: req_str(ms, "lastReported"@).unwrap(),
                installed_date_in_epochms: req_i64(ms, "installedDateInEpochms"@).unwrap(),
                last_reported_in_epochms: req_i64(ms, "lastReportedInEpochms"@).unwrap(),
                device_status: req_str(ms, "deviceStatus"@).unwrap(),
                maas360_managed_status: req_str(ms, "maas360ManagedStatus"@).unwrap(),
                udid: req_str(ms, "udid"@).unwrap(),
                wifi_mac_address: req_str(ms, "wifiMacAddress"@).unwrap(),
                mailbox_device_id: req_str(ms, "mailboxDeviceId"@).unwrap(),
                mailbox_last_reported: req_str(ms, "mailboxLastReported"@).unwrap(),
                mailbox_last_reported_in_epochms: req_val(
                    ms,
                    "mailboxLastReportedInEpochms"@,
                ).unwrap(),
                mailbox_managed: req_str(ms, "mailboxManaged"@).unwrap(),
                is_supervised_device: req_bool(ms, "isSupervisedDevice"@).unwrap(),
                test_device: req_bool(ms, "testDevice"@).unwrap(),
                unified_traveler_device_id: req_str(ms, "unifiedTravelerDeviceId"@).unwrap(),
            },
        )
    } else {
        None
    }
}

/// Builds every device of an array of records, when each record fits.
pub open spec fn devices_fields(os: Seq<Seq<(Seq<char>, LitV)>>) -> Option<Seq<DeviceV>> {
    if forall|k: int| 0 <= k < os.len() ==> device_fields(os[k]) is Some {
        Some(Seq::new(os.len(), |k: int| device_fields(os[k]).unwrap()))
    } else {
        None
    }
}

/// Scans the members of the "devices" object from just after its opening
/// brace, in any order: the first member named "device" whose value is an
/// array is read as the array of records; scalar members are kept; any other
/// member is ignored. The bounds on each inner scan's end keep the recursion
/// visibly finite.
pub open spec fn scan_devices_members(
    s: Seq<char>,
    i: int,
    dev: Option<Seq<Seq<(Seq<char>, LitV)>>>,
    acc: Seq<(Seq<char>, LitV)>,
) -> Option<(Option<Seq<Seq<(Seq<char>, LitV)>>>, Seq<(Seq<char>, LitV)>, int)>
    decreases s.len() - i,
    when 0 <= i <= s.len()
    via scan_devices_members_decreases
{
    let j = skip_ws(s, i);
    if j < s.len() && s[j] == '}' {
        Some((dev, acc, j + 1))
    } else if j < s.len() && s[j] == '"' {
        match scan_string(s, j + 1) {
            Some((key, k)) => {
                let m = skip_ws(s, k);
                if m < s.len() && s[m] == ':' {
                    let vpos = skip_ws(s, m + 1);
                    if key == "device"@ && dev is None && vpos < s.len() && s[vpos] == '[' {
                        match scan_objs(s, vpos + 1, Seq::empty()) {
                            Some((os, p)) => if vpos < p <= s.len() {
                                let q = skip_ws(s, p);
                                if q < s.len() && s[q] == ',' {
                                    scan_devices_members(s, q + 1, Some(os), acc)
                                } else if q < s.len() && s[q] == '}' {
                                    Some((Some(os), acc, q + 1))
                                } else {
                                    None
                                }
                            } else {
                                None
                            },
                            None => None,
                        }
                    } else if vpos < s.len() && (s[vpos] == '{' || s[vpos] == '[') {
                        match skip_value(s, vpos, 128) {
                            Some(p) => if vpos < p <= s.len() {
                                let q = skip_ws(s, p);
                                if q < s.len() && s[q] == ',' {
                                    scan_devices_members(s, q + 1, dev, acc)
                                } else if q < s.len() && s[q] == '}' {
                                    Some((dev, acc, q + 1))
                                } else {
                                    None
                                }
                            } else {
                                None
                            },
                            None => None,
                        }
                    } else {
                        match scan_lit(s, vpos) {
                            Some((v, p)) => {
                                let q = skip_ws(s, p);
                                if q < s.len() && s[q] == ',' {
                                    scan_devices_members(s, q + 1, dev, acc.push((key, v)))
                                } else if q < s.len() && s[q] == '}' {
                                    Some((dev, acc.push((key, v)), q + 1))
                                } else {
                                    None
                                }
                            },
                            None => None,
                        }
                    }
                } else {
                    None
                }
            },
            None => None,
        }
    } else {
        None
    }
}

#[via_fn]
proof fn scan_devices_members_decreases(
    s: Seq<char>,
    i: int,
    dev: Option<Seq<Seq<(Seq<char>, LitV)>>>,
    acc: Seq<(Seq<char>, LitV)>,
) {
    assert forall|x: int| 0 <= x <= s.len() implies x <= #[trigger] skip_ws(s, x) <= s.len() by {
        lemma_skip_ws_bounds(s, x);
    }
    assert forall|x: int| #[trigger] scan_string(s, x) is Some implies x < scan_string(
        s,
        x,
    ).unwrap().1 <= s.len() by {
        lemma_scan_string_advances(s, x);
    }
    assert forall|x: int| #[trigger] scan_lit(s, x) is Some implies x < scan_lit(
        s,
        x,
    ).unwrap().1 <= s.len() by {
        lemma_scan_lit_advances(s, x);
    }
}

/// Scans the members of the response's top-level object from just after its
/// opening brace, in any order: the first member named "devices" whose value
/// is an object is read with `scan_devices_members`; every other member is
/// ignored, whatever its shape.
pub open spec fn scan_devices_root(
    s: Seq<char>,
    i: int,
    found: Option<(Option<Seq<Seq<(Seq<char>, LitV)>>>, Seq<(Seq<char>, LitV)>)>,
) -> Option<(Option<(Option<Seq<Seq<(Seq<char>, LitV)>>>, Seq<(Seq<char>, LitV)>)>, int)>
    decreases s.len() - i,
    when 0 <= i <= s.len()
    via scan_devices_root_decreases
{
    let j = skip_ws(s, i);
    if j < s.len() && s[j] == '}' {
        Some((found, j + 1))
    } else if j < s.len() && s[j] == '"' {
        match scan_string(s, j + 1) {
            Some((key, k)) => {
                let m = skip_ws(s, k);
                if m < s.len() && s[m] == ':' {
                    let vpos = skip_ws(s, m + 1);
                    if key == "devices"@ && found is None && vpos < s.len() && s[vpos] == '{' {
                        match scan_devices_members(s, vpos + 1, None, Seq::empty()) {
                            Some((dev, ms, p)) => if vpos < p <= s.len() {
                                let q = skip_ws(s, p);
                                if q < s.len() && s[q] == ',' {
                                    scan_devices_root(s, q + 1, Some((dev, ms)))
                                } else if q < s.len() && s[q] == '}' {
                                    Some((Some((dev, ms)), q + 1))
                                } else {
                                    None
                                }
                            } else {
                                None
                            },
                            None => None,
                        }
                    } else {
                        match skip_value(s, vpos, 128) {
                            Some(p) => if vpos < p <= s.len() {
                                let q = skip_ws(s, p);
                                if q < s.len() && s[q] == ',' {
                                    scan_devices_root(s, q + 1, found)
                                } else if q < s.len() && s[q] == '}' {
                                    Some((found, q + 1))
                                } else {
                                    None
                                }
                            } else {
                                None
                            },
                            None => None,
                        }
                    }
                } else {
                    None
                }
            },
            None => None,
        }
    } else {
        None
    }
}

#[via_fn]
proof fn scan_devices_root_decreases(
    s: Seq<char>,
    i: int,
    found: Option<(Option<Seq<Seq<(Seq<char>, LitV)>>>, Seq<(Seq<char>, LitV)>)>,
) {
    assert forall|x: int| 0 <= x <= s.len() implies x <= #[trigger] skip_ws(s, x) <= s.len() by {
        lemma_skip_ws_bounds(s, x);
    }
    assert forall|x: int| #[trigger] scan_string(s, x) is Some implies x < scan_string(
        s,
        x,
    ).unwrap().1 <= s.len() by {
        lemma_scan_string_advances(s, x);
    }
}

/// Builds the page from the records and the remaining members.
pub open spec fn root_fields(
    os: Seq<Seq<(Seq<char>, LitV)>>,
    ms: Seq<(Seq<char>, LitV)>,
) -> Option<RootV> {
    match (devices_fields(os), req_i32(ms, "count"@), req_i32(ms, "pageNumber"@), req_i32(
        ms,
        "pageSize"@,
    )) {
        (Some(ds), Some(c), Some(pn), Some(psz)) => Some(
            RootV {
                devices: DevicesV { device: ds, count: c, page_number: pn, page_size: psz },
            },
        ),
        _ => None,
    }
}

/// The documented shape of a device-list response body: one object whose
/// member "devices" holds the "device" array of records and the flat count
/// and paging fields, members in any order, unknown members ignored, nothing
/// but whitespace around the object.
pub open spec fn parse_devices_body(s: Seq<char>) -> Option<RootV> {
    let i0 = skip_ws(s, 0);
    if i0 < s.len() && s[i0] == '{' {
        match scan_devices_root(s, i0 + 1, None) {
            Some((found, p)) => if skip_ws(s, p) == s.len() {
                match found {
                    Some((Some(os), ms)) => root_fields(os, ms),
                    _ => None,
                }
            } else {
                None
            },
            None => None,
        }
    } else {
        None
    }
}

// ---------------------------------------------------------------------------
// Executable field readers
// ---------------------------------------------------------------------------

/// Reads a required string field, exact against `req_str`.
fn get_str(ms: &Vec<(String, Lit)>, key: &str) -> (r: Result<String, ClientError>)
    ensures
        match r {
            Ok(t) => req_str(member_views(ms@), key@) == Some(t@),
            Err(e) => req_str(member_views(ms@), key@) is None && e
                == ClientError::MalformedResponse,
        },
{
    match find_lit(ms, key) {
        Some(l) => match l {
            Lit::Str(t) => Ok(t.clone()),
            _ => Err(ClientError::MalformedResponse),
        },
        None => Err(ClientError::MalformedResponse),
    }
}

/// Reads a required 64-bit integer field, exact against `req_i64`.
fn get_i64(ms: &Vec<(String, Lit)>, key: &str) -> (r: Result<i64, ClientError>)
    ensures
        match r {
            Ok(v) => req_i64(member_views(ms@), key@) == Some(v),
            Err(e) => req_i64(member_views(ms@), key@) is None && e
                == ClientError::MalformedResponse,
        },
{
    match find_lit(ms, key) {
        Some(l) => match l {
            Lit::Int(n) => Ok(*n),
            _ => Err(ClientError::MalformedResponse),
        },
        None => Err(ClientError::MalformedResponse),
    }
}

/// Reads a required 32-bit integer field, exact against `req_i32`.
fn get_i32(ms: &Vec<(String, Lit)>, key: &str) -> (r: Result<i32, ClientError>)
    ensures
        match r {
            Ok(v) => req_i32(member_views(ms@), key@) == Some(v),
            Err(e) => req_i32(member_views(ms@), key@) is None && e
                == ClientError::MalformedResponse,
        },
{
    match find_lit(ms, key) {
        Some(l) => match l {
            Lit::Int(n) => if i32::MIN as i64 <= *n && *n <= i32::MAX as i64 {
                Ok(*n as i32)
            } else {
                Err(ClientError::MalformedResponse)
            },
            _ => Err(ClientError::MalformedResponse),
        },
        None => Err(ClientError::MalformedResponse),
    }
}

/// Reads a required boolean field, exact against `req_bool`.
fn get_bool(ms: &Vec<(String, Lit)>, key: &str) -> (r: Result<bool, ClientError>)
    ensures
        match r {
            Ok(v) => req_bool(member_views(ms@), key@) == Some(v),
            Err(e) => req_bool(member_views(ms@), key@) is None && e
                == ClientError::MalformedResponse,
        },
{
    match find_lit(ms, key) {
        Some(l) => match l {
            Lit::Bool(b) => Ok(*b),
            _ => Err(ClientError::MalformedResponse),
        },
        None => Err(ClientError::MalformedResponse),
    }
}

/// Reads a required union field, exact against `req_val`.
fn get_val(ms: &Vec<(String, Lit)>, key: &str) -> (r: Result<Value, ClientError>)
    ensures
        match r {
            Ok(v) => req_val(member_views(ms@), key@) == Some(value_view(v)),
            Err(e) => req_val(member_views(ms@), key@) is None && e
                == ClientError::MalformedResponse,
        },
{
    match find_lit(ms, key) {
        Some(l) => match l {
            Lit::Int(n) => Ok(Value::Int(*n)),
            Lit::Str(t) => Ok(Value::Str(t.clone())),
            _ => Err(ClientError::MalformedResponse),
        },
        None => Err(ClientError::MalformedResponse),
    }
}

/// Builds one device from a parsed record, exact against `device_fields`.
fn device_of(ms: &Vec<(String, Lit)>) -> (r: Result<Device, ClientError>)
    ensures
        match r {
            Ok(d) => device_fields(member_views(ms@)) == Some(device_view(d)),
            Err(e) => device_fields(member_views(ms@)) is None && e
                == ClientError::MalformedResponse,
        },
{
    let maas360_device_id = match get_str(ms, "maas360DeviceID") { Ok(x) => x, Err(e) => { return Err(e); } };
    let device_name = match get_str(ms, "deviceName") { Ok(x) => x, Err(e) => { return Err(e); } };
    let custom_asset_number = match get_str(ms, "customAssetNumber") { Ok(x) => x, Err(e) => { return Err(e); } };
    let ownership = match get_str(ms, "ownership") { Ok(x) => x, Err(e) => { return Err(e); } };
    let device_owner = match get_str(ms, "deviceOwner") { Ok(x) => x, Err(e) => { return Err(e); } };
    let username = match get_str(ms, "username") { Ok(x) => x, Err(e) => { return Err(e); } };
    let email_address = match get_str(ms, "emailAddress") { Ok(x) => x, Err(e) => { return Err(e); } };
    let platform_name = match get_str(ms, "platformName") { Ok(x) => x, Err(e) => { return Err(e); } };
    let source_id = match get_i32(ms, "sourceID") { Ok(x) => x, Err(e) => { return Err(e); } };
    let device_type = match get_str(ms, "deviceType") { Ok(x) => x, Err(e) => { return Err(e); } };
    let manufacturer = match get_str(ms, "manufacturer") { Ok(x) => x, Err(e) => { return Err(e); } };
    let model = match get_str(ms, "model") { Ok(x) => x, Err(e) => { return Err(e); } };
    let os_name = match get_str(ms, "osName") { Ok(x) => x, Err(e) => { return Err(e); } };
    let os_service_pack = match get_str(ms, "osServicePack") { Ok(x) => x, Err(e) => { return Err(e); } };
    let imei_esn = match get_val(ms, "imeiEsn") { Ok(x) => x, Err(e) => { return Err(e); } };
    let installed_date = match get_str(ms, "installedDate") { Ok(x) => x, Err(e) => { return Err(e); } };
    let last_reported = match get_str(ms, "lastReported") { Ok(x) => x, Err(e) => { return Err(e); } };
    let installed_date_in_epochms = match get_i64(ms, "installedDateInEpochms") { Ok(x) => x, Err(e) => { return Err(e); } };
    let last_reported_in_epochms = match get_i64(ms, "lastReportedInEpochms") { Ok(x) => x, Err(e) => { return Err(e); } };
    let device_status = match get_str(ms, "deviceStatus") { Ok(x) => x, Err(e) => { return Err(e); } };
    let maas360_managed_status = match get_str(ms, "maas360ManagedStatus") { Ok(x) => x, Err(e) => { return Err(e); } };
    let udid = match get_str(ms, "udid") { Ok(x) => x, Err(e) => { return Err(e); } };
    let wifi_mac_address = match get_str(ms, "wifiMacAddress") { Ok(x) => x, Err(e) => { return Err(e); } };
    let mailbox_device_id = match get_str(ms, "mailboxDeviceId") { Ok(x) => x, Err(e) => { return Err(e); } };
    let mailbox_last_reported = match get_str(ms, "mailboxLastReported") { Ok(x) => x, Err(e) => { return Err(e); } };
    let mailbox_last_reported_in_epochms = match get_val(ms, "mailboxLastReportedInEpochms") { Ok(x) => x, Err(e) => { return Err(e); } };
    let mailbox_managed = match get_str(ms, "mailboxManaged") { Ok(x) => x, Err(e) => { return Err(e); } };
    let is_supervised_device = match get_bool(ms, "isSupervisedDevice") { Ok(x) => x, Err(e) => { return Err(e); } };
    let test_device = match get_bool(ms, "testDevice") { Ok(x) => x, Err(e) => { return Err(e); } };
    let unified_traveler_device_id = match get_str(ms, "unifiedTravelerDeviceId") { Ok(x) => x, Err(e) => { return Err(e); } };
    Ok(Device {
        maas360_device_id,
        device_name,
        custom_asset_number,
        ownership,
        device_owner,
        username,
        email_address,
        platform_name,
        source_id,
        device_type,
        manufacturer,
        model,
        os_name,
        os_service_pack,
        imei_esn,
        installed_date,
        last_reported,
        installed_date_in_epochms,
        last_reported_in_epochms,
        device_status,
        maas360_managed_status,
        udid,
        wifi_mac_address,
        mailbox_device_id,
        mailbox_last_reported,
        mailbox_last_reported_in_epochms,
        mailbox_managed,
        is_supervised_device,
        test_device,
        unified_traveler_device_id,
    })
}

/// The mathematical capture a parsed "devices" member stands for.
pub open spec fn devices_found_view(
    f: Option<(Option<Vec<Vec<(String, Lit)>>>, Vec<(String, Lit)>)>,
) -> Option<(Option<Seq<Seq<(Seq<char>, LitV)>>>, Seq<(Seq<char>, LitV)>)> {
    match f {
        Some((d, ms)) => Some(
            (
                match d {
                    Some(o) => Some(objs_views(o@)),
                    None => None,
                },
                member_views(ms@),
            ),
        ),
        None => None,
    }
}

/// The executable "devices"-object scanner, exact against
/// `scan_devices_members` started with nothing captured.
fn scan_devices_members_exec(s: &Vec<char>, i: usize) -> (r: Option<
    (Option<Vec<Vec<(String, Lit)>>>, Vec<(String, Lit)>, usize),
>)
    requires
        i <= s@.len(),
    ensures
        match r {
            Some(p) => scan_devices_members(s@, i as int, None, Seq::empty()) == Some(
                (
                    match p.0 {
                        Some(o) => Some(objs_views(o@)),
                        None => None,
                    },
                    member_views(p.1@),
                    p.2 as int,
                ),
            ) && i < p.2 <= s@.len(),
            None => scan_devices_members(s@, i as int, None, Seq::empty()) is None,
        },
{
    let mut dev: Option<Vec<Vec<(String, Lit)>>> = None;
    let mut acc: Vec<(String, Lit)> = Vec::new();
    let mut cur = i;
    proof {
        assert(member_views(acc@) =~= Seq::<(Seq<char>, LitV)>::empty());
    }
    loop
        invariant
            i <= cur <= s@.len(),
            scan_devices_members(s@, i as int, None, Seq::<(Seq<char>, LitV)>::empty())
                == scan_devices_members(
                s@,
                cur as int,
                match dev {
                    Some(o) => Some(objs_views(o@)),
                    None => None,
                },
                member_views(acc@),
            ),
        decreases s@.len() - cur,
    {
        let j = skip_ws_exec(s, cur);
        if j < s.len() && s[j] == '}' {
            return Some((dev, acc, j + 1));
        }
        if !(j < s.len() && s[j] == '"') {
            return None;
        }
        match scan_string_exec(s, j + 1) {
            None => {
                return None;
            },
            Some((key, k)) => {
                let m = skip_ws_exec(s, k);
                if !(m < s.len() && s[m] == ':') {
                    return None;
                }
                let vpos = skip_ws_exec(s, m + 1);
                if eq_str(key.as_str(), "device") && dev.is_none() && vpos < s.len() && s[vpos]
                    == '[' {
                    match scan_objs_exec(s, vpos + 1) {
                        None => {
                            return None;
                        },
                        Some((os, p)) => {
                            let q = skip_ws_exec(s, p);
                            if q < s.len() && s[q] == ',' {
                                dev = Some(os);
                                cur = q + 1;
                            } else if q < s.len() && s[q] == '}' {
                                return Some((Some(os), acc, q + 1));
                            } else {
                                return None;
                            }
                        },
                    }
                } else if vpos < s.len() && (s[vpos] == '{' || s[vpos] == '[') {
                    match skip_value_exec(s, vpos, 128) {
                        None => {
                            return None;
                        },
                        Some(p) => {
                            let q = skip_ws_exec(s, p);
                            if q < s.len() && s[q] == ',' {
                                cur = q + 1;
                            } else if q < s.len() && s[q] == '}' {
                                return Some((dev, acc, q + 1));
                            } else {
                                return None;
                            }
                        },
                    }
                } else {
                    match scan_lit_exec(s, vpos) {
                        None => {
                            return None;
                        },
                        Some((v, p)) => {
                            let q = skip_ws_exec(s, p);
                            if q < s.len() && s[q] == ',' {
                                let ghost kv = (key@, crate::scan::lit_view(v));
                                let ghost acc0 = member_views(acc@);
                                acc.push((key, v));
                                proof {
                                    assert(member_views(acc@) =~= acc0.push(kv));
                                }
                                cur = q + 1;
                            } else if q < s.len() && s[q] == '}' {
                                let ghost kv = (key@, crate::scan::lit_view(v));
                                let ghost acc0 = member_views(acc@);
                                acc.push((key, v));
                                proof {
                                    assert(member_views(acc@) =~= acc0.push(kv));
                                }
                                return Some((dev, acc, q + 1));
                            } else {
                                return None;
                            }
                        },
                    }
                }
            },
        }
    }
}

/// The executable top-level scanner of the device-list body, exact against
/// `scan_devices_root` started with nothing captured.
fn scan_devices_root_exec(s: &Vec<char>, i: usize) -> (r: Option<
    (Option<(Option<Vec<Vec<(String, Lit)>>>, Vec<(String, Lit)>)>, usize),
>)
    requires
        i <= s@.len(),
    ensures
        match r {
            Some(p) => scan_devices_root(s@, i as int, None) == Some(
                (devices_found_view(p.0), p.1 as int),
            ) && i < p.1 <= s@.len(),
            None => scan_devices_root(s@, i as int, None) is None,
        },
{
    let mut found: Option<(Option<Vec<Vec<(String, Lit)>>>, Vec<(String, Lit)>)> = None;
    let mut cur = i;
    loop
        invariant
            i <= cur <= s@.len(),
            scan_devices_root(s@, i as int, None) == scan_devices_root(
                s@,
                cur as int,
                devices_found_view(found),
            ),
        decreases s@.len() - cur,
    {
        let j = skip_ws_exec(s, cur);
        if j < s.len() && s[j] == '}' {
            return Some((found, j + 1));
        }
        if !(j < s.len() && s[j] == '"') {
            return None;
        }
        match scan_string_exec(s, j + 1) {
            None => {
                return None;
            },
            Some((key, k)) => {
                let m = skip_ws_exec(s, k);
                if !(m < s.len() && s[m] == ':') {
                    return None;
                }
                let vpos = skip_ws_exec(s, m + 1);
                if eq_str(key.as_str(), "devices") && found.is_none() && vpos < s.len() && s[vpos]
                    == '{' {
                    match scan_devices_members_exec(s, vpos + 1) {
                        None => {
                            return None;
                        },
                        Some((dev, ms, p)) => {
                            let q = skip_ws_exec(s, p);
                            if q < s.len() && s[q] == ',' {
                                found = Some((dev, ms));
                                cur = q + 1;
                            } else if q < s.len() && s[q] == '}' {
                                return Some((Some((dev, ms)), q + 1));
                            } else {
                                return None;
                            }
                        },
                    }
                } else {
                    match skip_value_exec(s, vpos, 128) {
                        None => {
                            return None;
                        },
                        Some(p) => {
                            let q = skip_ws_exec(s, p);
                            if q < s.len() && s[q] == ',' {
                                cur = q + 1;
                            } else if q < s.len() && s[q] == '}' {
                                return Some((found, q + 1));
                            } else {
                                return None;
                            }
                        },
                    }
                }
            },
        }
    }
}

/// Parses a device-list response body, exact against `parse_devices_body`:
/// a body in the documented shape yields exactly its page, any other body is
/// a schema error.
#[verifier::loop_isolation(false)]
pub fn parse_device_list(body: &str) -> (r: Result<Root, ClientError>)
    ensures
        match r {
            Ok(root) => parse_devices_body(body@) == Some(root_view(root)),
            Err(e) => parse_devices_body(body@) is None && e == ClientError::MalformedResponse,
        },
{
    let s = to_chars(body);
    let i0 = skip_ws_exec(&s, 0);
    if !(i0 < s.len() && s[i0] == '{') {
        return Err(ClientError::MalformedResponse);
    }
    let (found, pend) = match scan_devices_root_exec(&s, i0 + 1) {
        Some(pr) => pr,
        None => {
            return Err(ClientError::MalformedResponse);
        },
    };
    if skip_ws_exec(&s, pend) != s.len() {
        return Err(ClientError::MalformedResponse);
    }
    let ghost foundv = devices_found_view(found);
    let (devopt, rest) = match found {
        Some(pair) => pair,
        None => {
            return Err(ClientError::MalformedResponse);
        },
    };
    let objs = match devopt {
        Some(o) => o,
        None => {
            return Err(ClientError::MalformedResponse);
        },
    };
    proof {
        assert(foundv == Some(
            (Some(objs_views(objs@)), member_views(rest@)),
        ));
    }
    // The records.
    let mut devs: Vec<Device> = Vec::new();
    let mut idx: usize = 0;
    let n = objs.len();
    while idx < n
        invariant
            n == objs@.len(),
            idx <= n,
            devs@.len() == idx,
            forall|t: int|
                0 <= t < idx ==> device_fields(objs_views(objs@)[t]) == Some(
                    device_view(devs@[t]),
                ),
        decreases n - idx,
    {
        proof {
            assert(objs_views(objs@)[idx as int] == member_views(objs@[idx as int]@));
        }
        let d = match device_of(&objs[idx]) {
            Ok(d) => d,
            Err(e2) => {
                proof {
                    assert(device_fields(objs_views(objs@)[idx as int]) is None);
                    assert(devices_fields(objs_views(objs@)) is None);
                    assert(root_fields(objs_views(objs@), member_views(rest@)) is None);
                    assert(parse_devices_body(s@) is None);
                }
                return Err(e2);
            },
        };
        devs.push(d);
        idx += 1;
    }
    proof {
        assert(forall|t: int|
            0 <= t < objs_views(objs@).len() ==> device_fields(objs_views(objs@)[t]) is Some);
        assert(devices_fields(objs_views(objs@)).unwrap() =~= devs@.map_values(
            |d: Device| device_view(d),
        ));
        assert(parse_devices_body(s@) == root_fields(objs_views(objs@), member_views(rest@)));
    }
    let count = match get_i32(&rest, "count") { Ok(x) => x, Err(e2) => { return Err(e2); } };
    let page_number = match get_i32(&rest, "pageNumber") { Ok(x) => x, Err(e2) => { return Err(e2); } };
    let page_size = match get_i32(&rest, "pageSize") { Ok(x) => x, Err(e2) => { return Err(e2); } };
    Ok(Root { devices: Devices { device: devs, count, page_number, page_size } })
}

/// The device-search endpoint for a base URL and billing identifier, fixed
/// to devices whose status is Active.
pub fn device_url(base_url: &str, billing_id: &str) -> (r: String)
    ensures
        r@ == base_url@ + "device-apis/devices/1.0/search/"@ + billing_id@
            + "?deviceStatus=Active"@,
{
    let out = String::from_str(base_url);
    let out = out.concat("device-apis/devices/1.0/search/");
    let out = out.concat(billing_id);
    let out = out.concat("?deviceStatus=Active");
    out
}

/// The authorization header the device endpoint expects: the vendor's token
/// scheme around the auth token.
pub fn authorization_header(token: &str) -> (r: String)
    ensures
        r@ == "MaaS token=\""@ + token@ + "\""@,
{
    let out = String::from_str("MaaS token=\"");
    let out = out.concat(token);
    let out = out.concat("\"");
    out
}

/// Decides the outcome of the device-list call from the HTTP status and the
/// body. A status other than 200 yields no page (the one non-fatal path of
/// the client); on 200 a body in the documented shape yields its page, and
/// any other body is a schema error.
pub fn interpret_device_reply(status: u16, body: &str) -> (r: Result<Option<Root>, ClientError>)
    ensures
        status != 200 ==> r == Ok::<Option<Root>, ClientError>(None),
        status == 200 ==> match parse_devices_body(body@) {
            Some(page) => r matches Ok(Some(root)) && root_view(root) == page,
            None => r == Err::<Option<Root>, ClientError>(ClientError::MalformedResponse),
        },
{
    if status != 200 {
        return Ok(None);
    }
    match parse_device_list(body) {
        Ok(root) => Ok(Some(root)),
        Err(e) => Err(e),
    }
}

} // verus!
