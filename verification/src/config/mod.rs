use vstd::prelude::*;
use vstd::string::StringExecFns;

verus! {

/// The service's configuration: one entry per hosting provider.
#[derive(Debug, PartialEq)]
pub struct Config {
    pub provider: Provider,
}

/// The settings of the two providers that are kept in sync.
#[derive(Debug, PartialEq)]
pub struct Provider {
    pub github: ProviderConfig,
    pub gitlab: ProviderConfig,
}

/// How to reach one provider: host, whether over https, the account, its
/// API token and the private ssh key used for git transfers.
#[derive(Debug, PartialEq)]
pub struct ProviderConfig {
    pub hostname: String,
    pub https: bool,
    pub username: String,
    pub token: String,
    pub private_ssh_key: String,
}

/// How to reach the service's database.
#[derive(Debug, PartialEq)]
pub struct Database {
    pub host: String,
    pub username: String,
    pub password: String,
    pub db: String,
}

/// The connection parameters for `database`, as the database client reads
/// them: host, user, password and database name, and a ten-second connect
/// timeout.
pub open spec fn connection_text(database: &Database) -> Seq<char> {
    "host="@ + database.host@ + " user="@ + database.username@ + " password="@ + database.password@
        + " dbname="@ + database.db@ + " connect_timeout=10"@
}

/// Where each setting starts in the connection parameters of `database`:
/// after `host=`, ` user=`, ` password=` and ` dbname=` in turn.
pub open spec fn host_start(database: &Database) -> int {
    5
}

pub open spec fn user_start(database: &Database) -> int {
    host_start(database) + database.host@.len() + 6
}

pub open spec fn password_start(database: &Database) -> int {
    user_start(database) + database.username@.len() + 10
}

pub open spec fn db_start(database: &Database) -> int {
    password_start(database) + database.password@.len() + 8
}

/// The connection parameters hold every setting whole, each right after its
/// key, in the order host, user, password, database name, and end with the
/// ten-second connect timeout.
pub proof fn lemma_connection_text_fields(database: &Database)
    ensures
        connection_text(database).subrange(0, host_start(database)) == "host="@,
        connection_text(database).subrange(host_start(database), host_start(database) + database.host@.len())
            == database.host@,
        connection_text(database).subrange(user_start(database) - 6, user_start(database)) == " user="@,
        connection_text(database).subrange(user_start(database), user_start(database) + database.username@.len())
            == database.username@,
        connection_text(database).subrange(password_start(database) - 10, password_start(database))
            == " password="@,
        connection_text(database).subrange(
            password_start(database),
            password_start(database) + database.password@.len(),
        ) == database.password@,
        connection_text(database).subrange(db_start(database) - 8, db_start(database)) == " dbname="@,
        connection_text(database).subrange(db_start(database), db_start(database) + database.db@.len())
            == database.db@,
        connection_text(database).len() == db_start(database) + database.db@.len() + 19,
        connection_text(database).subrange(db_start(database) + database.db@.len(), connection_text(database).len() as int)
            == " connect_timeout=10"@,
{
    reveal_strlit("host=");
    reveal_strlit(" user=");
    reveal_strlit(" password=");
    reveal_strlit(" dbname=");
    reveal_strlit(" connect_timeout=10");
    let t = connection_text(database);
    let h = database.host@;
    let u = database.username@;
    let w = database.password@;
    let d = database.db@;
    let a = host_start(database);
    let b = user_start(database);
    let c = password_start(database);
    let e = db_start(database);
    assert(t =~= "host="@ + h + " user="@ + u + " password="@ + w + " dbname="@ + d + " connect_timeout=10"@);
    assert(t.subrange(0, a) =~= "host="@);
    assert(t.subrange(a, a + h.len()) =~= h);
    assert(t.subrange(b - 6, b) =~= " user="@);
    assert(t.subrange(b, b + u.len()) =~= u);
    assert(t.subrange(c - 10, c) =~= " password="@);
    assert(t.subrange(c, c + w.len()) =~= w);
    assert(t.subrange(e - 8, e) =~= " dbname="@);
    assert(t.subrange(e, e + d.len()) =~= d);
    assert(t.subrange(e + d.len(), t.len() as int) =~= " connect_timeout=10"@);
}

impl Database {
    /// The connection parameters of this database.
    pub fn connection_string(&self) -> (params: String)
        ensures
            params@ == connection_text(self),
            params@.subrange(host_start(self), host_start(self) + self.host@.len()) == self.host@,
            params@.subrange(user_start(self), user_start(self) + self.username@.len()) == self.username@,
            params@.subrange(password_start(self), password_start(self) + self.password@.len()) == self.password@,
            params@.subrange(password_start(self) - 10, password_start(self)) == " password="@,
            params@.subrange(db_start(self) - 8, db_start(self)) == " dbname="@,
            params@.subrange(db_start(self), db_start(self) + self.db@.len()) == self.db@,
            params@.len() == db_start(self) + self.db@.len() + 19,
    {
        proof {
            lemma_connection_text_fields(self);
        }
        let mut params = String::from_str("host=");
        params.append(self.host.as_str());
        params.append(" user=");
        params.append(self.username.as_str());
        params.append(" password=");
        params.append(self.password.as_str());
        params.append(" dbname=");
        params.append(self.db.as_str());
        params.append(" connect_timeout=10");
        params
    }
}

/// Why the configuration could not be loaded.
#[derive(Debug)]
pub struct ConfigError(pub String);

} // verus!
