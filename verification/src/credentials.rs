use vstd::prelude::*;

verus! {

/// The five externally supplied credential strings plus the two constant
/// fields (platform identifier and app version) that the vendor's
/// authentication endpoint expects inside its JSON envelope.
#[derive(Debug)]
pub struct MaaS360AdminAuth {
    pub billing_id: String,
    pub platform_id: String,
    pub app_version: String,
    pub app_id: String,
    pub app_access_key: String,
    pub user_name: String,
    pub password: String,
}

/// The middle layer of the vendor's nested envelope.
#[derive(Debug)]
pub struct AuthRequest {
    pub maas360_admin_auth: MaaS360AdminAuth,
}

/// The outermost layer of the vendor's nested envelope: what is serialized
/// as the body of the authentication request.
#[derive(Debug)]
pub struct APIWrapper {
    pub auth_request: AuthRequest,
}

impl APIWrapper {
    /// Wraps the five supplied credentials into the full envelope, filling in
    /// the two constant fields: platform identifier "3" and app version "1.0".
    pub fn new(
        billing_id: String,
        app_id: String,
        app_access_key: String,
        user_name: String,
        password: String,
    ) -> (r: APIWrapper)
        ensures
            r.auth_request.maas360_admin_auth.billing_id@ == billing_id@,
            r.auth_request.maas360_admin_auth.platform_id@ == "3"@,
            r.auth_request.maas360_admin_auth.app_version@ == "1.0"@,
            r.auth_request.maas360_admin_auth.app_id@ == app_id@,
            r.auth_request.maas360_admin_auth.app_access_key@ == app_access_key@,
            r.auth_request.maas360_admin_auth.user_name@ == user_name@,
            r.auth_request.maas360_admin_auth.password@ == password@,
    {
        APIWrapper {
            auth_request: AuthRequest {
                maas360_admin_auth: MaaS360AdminAuth {
                    billing_id,
                    platform_id: String::from_str("3"),
                    app_version: String::from_str("1.0"),
                    app_id,
                    app_access_key,
                    user_name,
                    password,
                },
            },
        }
    }
}

} // verus!
