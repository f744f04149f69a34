use vstd::prelude::*;
use crate::errors::ClientError;

verus! {

/// The fixed five-entry region table: the leading character of a billing
/// identifier selects the base URL of the shard serving that account.
pub open spec fn region_url(c: char) -> Option<Seq<char>> {
    if c == '1' {
        Some("https://services.fiberlink.com/"@)
    } else if c == '2' {
        Some("https://services.m2.maas360.com/"@)
    } else if c == '3' {
        Some("https://services.m3.maas360.com/"@)
    } else if c == '4' {
        Some("https://services.m4.maas360.com/"@)
    } else if c == '6' {
        Some("https://services.m6.maas360.com/"@)
    } else {
        None
    }
}

/// Resolves the regional base URL from the billing identifier's leading
/// character. An empty identifier and an unknown leading character are the
/// two configuration errors; every other identifier maps to exactly the URL
/// that the region table gives for its first character.
pub fn get_base_url(billing_id: &str) -> (r: Result<&'static str, ClientError>)
    ensures
        billing_id@.len() == 0 ==> r == Err::<&'static str, ClientError>(ClientError::EmptyBillingId),
        billing_id@.len() > 0 ==> match region_url(billing_id@[0]) {
            Some(url) => r is Ok && r->Ok_0@ == url,
            None => r == Err::<&'static str, ClientError>(ClientError::UnknownRegion),
        },
{
    let n = billing_id.unicode_len();
    if n == 0 {
        return Err(ClientError::EmptyBillingId);
    }
    let c = billing_id.get_char(0);
    if c == '1' {
        Ok("https://services.fiberlink.com/")
    } else if c == '2' {
        Ok("https://services.m2.maas360.com/")
    } else if c == '3' {
        Ok("https://services.m3.maas360.com/")
    } else if c == '4' {
        Ok("https://services.m4.maas360.com/")
    } else if c == '6' {
        Ok("https://services.m6.maas360.com/")
    } else {
        Err(ClientError::UnknownRegion)
    }
}

} // verus!
