use vstd::prelude::*;
use vstd::string::StringExecFns;

use crate::text::{dec_digits, decimal_string};

verus! {

/// Settings of the database the service persists to. Loading these from a
/// configuration file is the caller's business; here they are plain values.
pub struct DBConfiguration {
    pub port: u16,
    pub user: String,
    pub password: String,
    pub db: String,
    pub host: String,
}

/// Settings of the whole service: the port to listen on and the database
/// settings.
pub struct Configuration {
    pub port: u16,
    pub db_config: DBConfiguration,
}

/// The local listen address: the loopback host followed by the port.
pub open spec fn spec_address(port: u16) -> Seq<char> {
    "127.0.0.1:"@ + dec_digits(port as nat)
}

/// The connection string of the database server alone, without a database
/// name: scheme, credentials, host and port.
pub open spec fn spec_connect_str_without_db(c: DBConfiguration) -> Seq<char> {
    "postgres://"@ + c.user@ + ":"@ + c.password@ + "@"@ + c.host@ + ":"@ + dec_digits(
        c.port as nat,
    )
}

/// The full connection string: the server part followed by the database name.
pub open spec fn spec_connect_str(c: DBConfiguration) -> Seq<char> {
    spec_connect_str_without_db(c) + "/"@ + c.db@
}

impl Configuration {
    /// The address the listener binds to.
    pub fn address(&self) -> (s: String)
        ensures
            s@ == spec_address(self.port),
    {
        let mut s = String::from_str("127.0.0.1:");
        let digits = decimal_string(self.port);
        s.append(digits.as_str());
        s
    }

    /// The connection string used to open the pool against the configured
    /// database.
    pub fn db_connect_str(&self) -> (s: String)
        ensures
            s@ == spec_connect_str(self.db_config),
    {
        let mut s = self.db_connect_str_without_db();
        s.append("/");
        s.append(self.db_config.db.as_str());
        proof {
            assert(s@ =~= spec_connect_str(self.db_config));
        }
        s
    }

    /// The connection string of the server alone, used when the database
    /// itself has yet to be created.
    pub fn db_connect_str_without_db(&self) -> (s: String)
        ensures
            s@ == spec_connect_str_without_db(self.db_config),
    {
        let mut s = String::from_str("postgres://");
        s.append(self.db_config.user.as_str());
        s.append(":");
        s.append(self.db_config.password.as_str());
        s.append("@");
        s.append(self.db_config.host.as_str());
        s.append(":");
        let digits = decimal_string(self.db_config.port);
        s.append(digits.as_str());
        proof {
            assert(s@ =~= spec_connect_str_without_db(self.db_config));
        }
        s
    }
}

} // verus!
