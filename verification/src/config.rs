//! Server configuration and the values derived from it.
use vstd::prelude::*;
use vstd::string::StringExecFns;
use crate::text::{decimal, decimal_chars, string_from_chars};

verus! {

/// Settings the server reads from its secret store at start-up.
pub struct Config {
    pub environment: String,
    pub secret_key: String,
    pub hash_cost: String,
    pub jwt_issuer: String,
    pub jwt_audience: String,
    pub api_port: u16,
    pub db_user: String,
    pub db_pass: String,
    pub db_name: String,
    pub db_host: String,
    pub db_port: u16,
    pub domain: String,
    pub gmail_email: String,
    pub gmail_token_pass: String,
}

impl Config {
    /// `postgresql://<user>:<pass>@<host>:<port>/<name>`, the port in decimal.
    pub open spec fn spec_db_url(&self) -> Seq<char> {
        "postgresql://"@ + self.db_user@ + ":"@ + self.db_pass@ + "@"@ + self.db_host@ + ":"@
            + decimal(self.db_port as nat) + "/"@ + self.db_name@
    }

    /// The PostgreSQL connection URL for these settings.
    pub fn build_db_url(&self) -> (url: String)
        ensures
            url@ == self.spec_db_url(),
    {
        let port_digits = decimal_chars(self.db_port as u64);
        let port = string_from_chars(&port_digits);
        let mut url = String::new();
        url.append("postgresql://");
        url.append(self.db_user.as_str());
        url.append(":");
        url.append(self.db_pass.as_str());
        url.append("@");
        url.append(self.db_host.as_str());
        url.append(":");
        url.append(port.as_str());
        url.append("/");
        url.append(self.db_name.as_str());
        proof {
            assert(url@ =~= self.spec_db_url());
        }
        url
    }
}

}
