//! A thin home-automation HTTP service client: which URL a service call
//! posts to and which header authenticates it. The HTTP transport itself
//! lives outside this library.

use vstd::prelude::*;
use vstd::string::StringExecFns;

verus! {

pub struct HomeAssistantClient {
    pub base_url: String,
    pub token: String,
}

impl HomeAssistantClient {
    pub fn new(base_url: String, token: String) -> (r: HomeAssistantClient)
        ensures
            r.base_url == base_url,
            r.token == token,
    {
        HomeAssistantClient { base_url, token }
    }

    /// The endpoint of one service call.
    pub fn service_url(&self, domain: &str, service: &str) -> (r: String)
        ensures
            r@ == self.base_url@ + "/api/services/"@ + domain@ + "/"@ + service@,
    {
        let mut s = self.base_url.clone();
        s.append("/api/services/");
        s.append(domain);
        s.append("/");
        s.append(service);
        s
    }

    /// The bearer header every call carries.
    pub fn auth_header(&self) -> (r: String)
        ensures
            r@ == "Bearer "@ + self.token@,
    {
        let mut s = String::from_str("Bearer ");
        s.append(self.token.as_str());
        s
    }
}

} // verus!
