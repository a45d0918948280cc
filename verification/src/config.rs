//! The settings of the service.

use crate::artifact::{FilePath, PathModel, ARTIFACT_DIRECTORY};
use crate::model::optional_text;
use crate::rules::joined;
use std::collections::HashMap;
use vstd::prelude::*;

verus! {

/// The file of the database, below the directory of the data.
pub const DATABASE_FILENAME: &'static str = "orcis.db";

/// The settings of the service.
#[derive(Clone, Debug, PartialEq, Eq)]
pub struct Config {
    pub addr: String,
    pub data_path: String,
    pub token: Option<String>,
    pub rust_log: String,
}

/// The settings of the service, mathematically.
pub struct ConfigModel {
    pub addr: Seq<char>,
    pub data_path: Seq<char>,
    pub token: Option<Seq<char>>,
    pub rust_log: Seq<char>,
}

impl View for Config {
    type V = ConfigModel;

    open spec fn view(&self) -> ConfigModel {
        ConfigModel {
            addr: self.addr@,
            data_path: self.data_path@,
            token: optional_text(self.token),
            rust_log: self.rust_log@,
        }
    }
}

/// What `Debug` prints for a text.
pub uninterp spec fn debug_text(text: Seq<char>) -> Seq<char>;

/// The `Debug` of `str`: a function of the text alone.
#[verifier::external_body]
fn print_debug(text: &str) -> (result: String)
    ensures
        result@ == debug_text(text@),
{
    format!("{text:?}")
}

/// A setting, or what stands for it where it is not made.
pub open spec fn or_default(value: Option<Seq<char>>, default: Seq<char>) -> Seq<char> {
    match value {
        Some(text) => text,
        None => default,
    }
}

/// A setting, or what stands for it where it is not made.
fn setting(value: Option<String>, default: &str) -> (text: String)
    ensures
        text@ == or_default(optional_text(value), default@),
{
    match value {
        Some(text) => text,
        None => default.to_owned(),
    }
}

/// The address to listen on where none is set.
pub const DEFAULT_ADDRESS: &'static str = "127.0.0.1:8080";

/// The refusal of a setting that is no longer there.
pub const OBSOLETE_PATH: &'static str =
    "ORCIS_DB_PATH has been replaced by the directory setting ORCIS_DATA_PATH";

/// The refusal of an address, by what is wrong with it.
pub open spec fn address_error(address: Seq<char>, error: Seq<char>) -> Seq<char> {
    "invalid ORCIS_ADDR "@ + debug_text(address) + ": "@ + error
}

/// Whether the settings can be read: the obsolete one can always be asked for, the
/// address only where that one is not made, and the rest only where nothing is wrong
/// with the address.
pub open spec fn can_be_read<G, C>(get: G, check: C) -> bool where
    G: Fn(&str) -> Option<String>,
    C: Fn(&str) -> Option<String>,
 {
    &&& call_requires(get, ("ORCIS_DB_PATH",))
    &&& (exists|db: Option<String>| #[trigger] call_ensures(get, ("ORCIS_DB_PATH",), db) && db is None)
        ==> call_requires(get, ("ORCIS_ADDR",))
    &&& forall|db: Option<String>, addr: Option<String>, address: &str|
        #![trigger call_ensures(get, ("ORCIS_DB_PATH",), db), call_ensures(get, ("ORCIS_ADDR",), addr), call_requires(check, (address,))]
        call_ensures(get, ("ORCIS_DB_PATH",), db) && db is None && call_ensures(
            get,
            ("ORCIS_ADDR",),
            addr,
        ) && address@ == or_default(optional_text(addr), DEFAULT_ADDRESS@) ==> call_requires(
            check,
            (address,),
        )
    &&& forall|db: Option<String>, addr: Option<String>, address: &str, error: Option<String>|
        #![trigger call_ensures(get, ("ORCIS_DB_PATH",), db), call_ensures(get, ("ORCIS_ADDR",), addr), call_ensures(check, (address,), error)]
        call_ensures(get, ("ORCIS_DB_PATH",), db) && db is None && call_ensures(
            get,
            ("ORCIS_ADDR",),
            addr,
        ) && address@ == or_default(optional_text(addr), DEFAULT_ADDRESS@) && call_ensures(
            check,
            (address,),
            error,
        ) && error is None ==> call_requires(get, ("ORCIS_DATA_PATH",)) && call_requires(
            get,
            ("ORCIS_TOKEN",),
        ) && call_requires(get, ("RUST_LOG",))
}

/// Whether the result is the refusal of a wrong address, or else the settings with
/// what stands for those that are not made.
pub open spec fn configures<G, C>(
    get: G,
    check: C,
    addr: Option<String>,
    result: Result<Config, String>,
) -> bool where G: Fn(&str) -> Option<String>, C: Fn(&str) -> Option<String> {
    exists|address: &str, error: Option<String>|
        {
            &&& address@ == or_default(optional_text(addr), DEFAULT_ADDRESS@)
            &&& #[trigger] call_ensures(check, (address,), error)
            &&& match error {
                Some(error) => result matches Err(message) && message@ == address_error(
                    address@,
                    error@,
                ),
                None => result matches Ok(config) && config@.addr == address@ && is_completed(
                    get,
                    config@,
                ),
            }
        }
}

/// Whether the rest of the settings are those that `get` finds, with what stands for
/// those that are not made.
pub open spec fn is_completed<G>(get: G, config: ConfigModel) -> bool where
    G: Fn(&str) -> Option<String>,
 {
    &&& exists|data_path: Option<String>|
        #[trigger] call_ensures(get, ("ORCIS_DATA_PATH",), data_path) && config.data_path
            == or_default(optional_text(data_path), "."@)
    &&& exists|token: Option<String>|
        #[trigger] call_ensures(get, ("ORCIS_TOKEN",), token) && config.token == optional_text(token)
    &&& exists|rust_log: Option<String>|
        #[trigger] call_ensures(get, ("RUST_LOG",), rust_log) && config.rust_log == or_default(
            optional_text(rust_log),
            "info"@,
        )
}

/// The value that a map of texts holds under a name.
pub open spec fn value_under(values: Map<String, String>, name: Seq<char>) -> Option<Seq<char>> {
    if exists|key: String| #[trigger] values.contains_key(key) && key@ == name {
        let key = choose|key: String| #[trigger] values.contains_key(key) && key@ == name;
        Some(values[key]@)
    } else {
        None
    }
}

/// `std::collections::HashMap::get` with texts as keys: the value under the key that is
/// the same text, or none where there is no such key.
#[verifier::external_body]
fn look_up<'a>(values: &'a HashMap<String, String>, name: &str) -> (found: Option<&'a String>)
    ensures
        match found {
            Some(text) => value_under(values@, name@) == Some(text@),
            None => value_under(values@, name@) is None,
        },
{
    values.get(name)
}

impl Config {
    /// The settings that a map holds by their names. What is wrong with the address,
    /// where it is no address, is for `check` to tell.
    pub fn from_map(
        values: &HashMap<String, String>,
        check: impl Fn(&str) -> Option<String>,
    ) -> (result: Result<Config, String>)
        requires
            value_under(values@, "ORCIS_DB_PATH"@) is None ==> forall|address: &str|
                address@ == or_default(value_under(values@, "ORCIS_ADDR"@), DEFAULT_ADDRESS@)
                    ==> #[trigger] call_requires(check, (address,)),
        ensures
            value_under(values@, "ORCIS_DB_PATH"@) is Some ==> (result matches Err(message)
                && message@ == OBSOLETE_PATH@),
            value_under(values@, "ORCIS_DB_PATH"@) is None ==> exists|
                address: &str,
                error: Option<String>,
            |
                {
                    &&& address@ == or_default(
                        value_under(values@, "ORCIS_ADDR"@),
                        DEFAULT_ADDRESS@,
                    )
                    &&& #[trigger] call_ensures(check, (address,), error)
                    &&& match error {
                        Some(error) => result matches Err(message) && message@ == address_error(
                            address@,
                            error@,
                        ),
                        None => result matches Ok(config) && config@ == (ConfigModel {
                            addr: address@,
                            data_path: or_default(
                                value_under(values@, "ORCIS_DATA_PATH"@),
                                "."@,
                            ),
                            token: value_under(values@, "ORCIS_TOKEN"@),
                            rust_log: or_default(value_under(values@, "RUST_LOG"@), "info"@),
                        }),
                    }
                },
    {
        let get = |name: &str| -> (found: Option<String>)
            ensures
                optional_text(found) == value_under(values@, name@),
            {
                match look_up(values, name) {
                    Some(text) => Some(text.clone()),
                    None => None,
                }
            };
        Config::from_getter(get, check)
    }

    /// The settings that `get` finds by their names. What is wrong with the
    /// address, where it is no address, is for `check` to tell. Where the obsolete
    /// setting is made, nothing else is asked for.
    pub fn from_getter(
        get: impl Fn(&str) -> Option<String>,
        check: impl Fn(&str) -> Option<String>,
    ) -> (result: Result<Config, String>)
        requires
            can_be_read(get, check),
        ensures
            exists|db_path: Option<String>| #[trigger]
                call_ensures(get, ("ORCIS_DB_PATH",), db_path) && match db_path {
                    Some(_) => result matches Err(message) && message@ == OBSOLETE_PATH@,
                    None => exists|addr: Option<String>| #[trigger]
                        call_ensures(get, ("ORCIS_ADDR",), addr) && configures(
                            get,
                            check,
                            addr,
                            result,
                        ),
                },
    {
        let db_path = get("ORCIS_DB_PATH");
        if db_path.is_some() {
            return Err(OBSOLETE_PATH.to_owned());
        }
        let found = get("ORCIS_ADDR");
        let ghost addr = found;
        let address = setting(found, DEFAULT_ADDRESS);
        let text: &str = address.as_str();
        let problem = check(text);
        assert(call_ensures(check, (text,), problem));
        if let Some(error) = problem {
            let mut message = joined("invalid ORCIS_ADDR ", print_debug(text).as_str());
            message.append(": ");
            message.append(error.as_str());
            assert(configures(get, check, addr, Err(message)));
            return Err(message);
        }
        let data_path = get("ORCIS_DATA_PATH");
        let token = get("ORCIS_TOKEN");
        let rust_log = get("RUST_LOG");
        let config = Config {
            addr: address,
            data_path: setting(data_path, "."),
            token,
            rust_log: setting(rust_log, "info"),
        };
        assert(is_completed(get, config@));
        assert(configures(get, check, addr, Ok(config)));
        Ok(config)
    }

    /// The file of the database.
    pub fn db_path(&self) -> (path: FilePath)
        ensures
            path@ == (PathModel { directory: self@.data_path, name: DATABASE_FILENAME@ }),
    {
        FilePath { directory: self.data_path.clone(), name: DATABASE_FILENAME.to_owned() }
    }

    /// The directory of artifacts.
    pub fn artifact_dir(&self) -> (path: FilePath)
        ensures
            path@ == (PathModel { directory: self@.data_path, name: ARTIFACT_DIRECTORY@ }),
    {
        FilePath { directory: self.data_path.clone(), name: ARTIFACT_DIRECTORY.to_owned() }
    }
}

} // verus!
