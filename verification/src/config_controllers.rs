use vstd::prelude::*;

use vstd::string::StringExecFns;

verus! {

/// The one-character text of a decimal digit.
pub open spec fn digit_seq(d: int) -> Seq<char> {
    if d == 0 {
        "0"@
    } else if d == 1 {
        "1"@
    } else if d == 2 {
        "2"@
    } else if d == 3 {
        "3"@
    } else if d == 4 {
        "4"@
    } else if d == 5 {
        "5"@
    } else if d == 6 {
        "6"@
    } else if d == 7 {
        "7"@
    } else if d == 8 {
        "8"@
    } else {
        "9"@
    }
}

/// The decimal text of a number, most significant digit first.
pub open spec fn dec_str_of(n: int) -> Seq<char>
    decreases n,
{
    if n < 10 {
        digit_seq(n)
    } else {
        dec_str_of(n / 10) + digit_seq(n % 10)
    }
}

fn digit_str(d: u16) -> (r: &'static str)
    requires
        d < 10,
    ensures
        r@ == digit_seq(d as int),
{
    match d {
        0 => "0",
        1 => "1",
        2 => "2",
        3 => "3",
        4 => "4",
        5 => "5",
        6 => "6",
        7 => "7",
        8 => "8",
        _ => "9",
    }
}

fn dec_string(n: u16) -> (r: String)
    ensures
        r@ == dec_str_of(n as int),
    decreases n,
{
    if n < 10 {
        digit_str(n).to_owned()
    } else {
        let high = dec_string(n / 10);
        high.concat(digit_str(n % 10))
    }
}

/// The local configuration record: database coordinates and the bind
/// address of the transport collaborator. Reading and writing the file
/// that holds it is the collaborator's business; this layer only carries
/// and checks the record.
#[derive(Debug)]
pub struct LocalConfig {
    pub mysql_username: Option<String>,
    pub mysql_password: Option<String>,
    pub mysql_database: Option<String>,
    pub mysql_url: Option<String>,
    pub mysql_port: Option<u16>,
    pub bind_address: Option<String>,
    pub bind_port: Option<u16>,
}

impl LocalConfig {
    /// Whether every field a database connection needs is present.
    pub open spec fn spec_database_complete(self) -> bool {
        self.mysql_username is Some && self.mysql_password is Some && self.mysql_database is Some
            && self.mysql_url is Some && self.mysql_port is Some
    }

    /// A connection string can be assembled exactly when every database
    /// field is present; a caller must not try with less.
    pub fn database_complete(&self) -> (r: bool)
        ensures
            r == self.spec_database_complete(),
    {
        self.mysql_username.is_some() && self.mysql_password.is_some()
            && self.mysql_database.is_some() && self.mysql_url.is_some()
            && self.mysql_port.is_some()
    }

    /// The connection string `self` denotes, when complete.
    pub open spec fn spec_database_url(self) -> Seq<char> {
        "mysql://"@ + self.mysql_username.unwrap()@ + ":"@ + self.mysql_password.unwrap()@ + "@"@
            + self.mysql_url.unwrap()@ + ":"@ + dec_str_of(self.mysql_port.unwrap() as int) + "/"@
            + self.mysql_database.unwrap()@
    }

    /// Assembles the connection string for the pool collaborator: `None`
    /// exactly when a database field is missing.
    pub fn database_url(&self) -> (r: Option<String>)
        ensures
            match r {
                Some(u) => self.spec_database_complete() && u@ == self.spec_database_url(),
                None => !self.spec_database_complete(),
            },
    {
        let user = match &self.mysql_username {
            Some(v) => v,
            None => {
                return None;
            },
        };
        let pass = match &self.mysql_password {
            Some(v) => v,
            None => {
                return None;
            },
        };
        let db = match &self.mysql_database {
            Some(v) => v,
            None => {
                return None;
            },
        };
        let host = match &self.mysql_url {
            Some(v) => v,
            None => {
                return None;
            },
        };
        let port = match self.mysql_port {
            Some(v) => v,
            None => {
                return None;
            },
        };
        let mut out = String::from_str("mysql://");
        out.append(user.as_str());
        out.append(":");
        out.append(pass.as_str());
        out.append("@");
        out.append(host.as_str());
        out.append(":");
        out.append(dec_string(port).as_str());
        out.append("/");
        out.append(db.as_str());
        Some(out)
    }
}

} // verus!
