//! Database settings of a shipgate service.
use vstd::prelude::*;
use vstd::string::*;

verus! {

/// Which database a shipgate uses.
pub enum DbConf {
    Sqlite { file: String },
}

/// The outcome of reading a database section, over its two fields: the
/// `type` and the `file`.
pub open spec fn db_conf_result(db_type: Option<Seq<char>>, file: Option<Seq<char>>) -> Result<Seq<char>, Seq<char>> {
    match db_type {
        None => Err("shipgate db type not specified"@),
        Some(t) => if t == "sqlite"@ {
            match file {
                Some(f) => Ok(f),
                None => Err("sqlite DB type file path missing."@),
            }
        } else {
            Err("unsupported db type "@ + t)
        },
    }
}

impl DbConf {
    /// Builds the settings from the `type` and `file` fields of a database
    /// section: only `sqlite` is supported, and it needs a file.
    pub fn from_fields(db_type: Option<String>, file: Option<String>) -> (r: Result<DbConf, String>)
        ensures
            match (r, db_conf_result(
                match db_type { Some(t) => Some(t@), None => None },
                match file { Some(f) => Some(f@), None => None },
            )) {
                (Ok(DbConf::Sqlite { file: f }), Ok(g)) => f@ == g,
                (Err(e), Err(g)) => e@ == g,
                _ => false,
            },
    {
        match db_type {
            None => Err(String::from_str("shipgate db type not specified")),
            Some(t) => {
                let sqlite = String::from_str("sqlite");
                if t == sqlite {
                    match file {
                        Some(f) => Ok(DbConf::Sqlite { file: f }),
                        None => Err(String::from_str("sqlite DB type file path missing.")),
                    }
                } else {
                    let mut e = String::from_str("unsupported db type ");
                    e.append(t.as_str());
                    Err(e)
                }
            },
        }
    }
}

} // verus!
