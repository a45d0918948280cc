//! The numbers and names that the service goes by.

use crate::api::discovery::endpoint_table;
use crate::artifact::{
    ARTIFACT_DIRECTORY, CHUNK_BYTES, MAX_ARTIFACT_BYTES, SHORT_FILE, SIZE_MISMATCH,
};
use crate::config::{
    address_error, debug_text, is_completed, or_default, Config, DATABASE_FILENAME,
    DEFAULT_ADDRESS, OBSOLETE_PATH,
};
use crate::schema::versions_after;
use crate::time::{in_range, is_recent, whole_seconds, RETENTION_SECONDS};
use vstd::prelude::*;

verus! {

/// Artifacts are kept for seven days, hold at most a gibibyte, and are sent in pieces of
/// at most 64 kibibytes.
pub proof fn artifacts_have_these_limits()
    ensures
        RETENTION_SECONDS == 7 * 24 * 60 * 60,
        MAX_ARTIFACT_BYTES == 1024 * 1024 * 1024,
        CHUNK_BYTES == 64 * 1024,
{
}

/// A point in time lies between the first and the last that can be told, both of which are
/// points in time; the years that are not negative begin with the year 0.
pub proof fn times_have_these_limits(nanosecond: int)
    ensures
        in_range(nanosecond) <==> -377_705_023_201_000_000_000 <= nanosecond
            <= 253_402_207_200_999_999_999,
        is_recent(nanosecond) <==> -62_167_219_200_000_000_000 <= nanosecond
            <= 253_402_207_200_999_999_999,
{
}

/// The whole seconds of a time are those towards the Unix epoch: less than a second is
/// dropped of it.
pub proof fn whole_seconds_drop_the_fraction(nanosecond: int)
    ensures
        nanosecond >= 0 ==> 0 <= nanosecond - whole_seconds(nanosecond) * 1_000_000_000
            < 1_000_000_000,
        nanosecond <= 0 ==> 0 <= whole_seconds(nanosecond) * 1_000_000_000 - nanosecond
            < 1_000_000_000,
{
}

/// The time by which a task must have been closed for its artifacts to expire lies seven
/// days back, and less than a second more, from the Unix epoch on.
pub proof fn artifacts_expire_after_seven_days(now: int)
    requires
        now >= 0,
    ensures
        ({
            let cutoff = (whole_seconds(now) - RETENTION_SECONDS) * 1_000_000_000;
            now - 604_801_000_000_000 < cutoff <= now - 604_800_000_000_000
        }),
{
}

/// Settings that are not made have these values, and those that are made count.
pub proof fn settings_have_these_defaults(value: Option<Seq<char>>, default: Seq<char>)
    ensures
        value is None ==> or_default(value, default) == default,
        value matches Some(text) ==> or_default(value, default) == text,
        DEFAULT_ADDRESS@ == "127.0.0.1:8080"@,
        DATABASE_FILENAME@ == "orcis.db"@,
        ARTIFACT_DIRECTORY@ == "artifacts"@,
        OBSOLETE_PATH@
            == "ORCIS_DB_PATH has been replaced by the directory setting ORCIS_DATA_PATH"@,
{
}

/// The refusal of an address tells the address and what is wrong with it.
pub proof fn a_wrong_address_is_told(address: Seq<char>, error: Seq<char>)
    ensures
        address_error(address, error) == "invalid ORCIS_ADDR "@ + debug_text(address) + ": "@
            + error,
{
}

/// The versions that a database is brought to come in their order, one after the other,
/// from the one after its own to the last.
pub proof fn versions_come_one_after_the_other(current: int, count: nat, i: int)
    requires
        0 <= i < versions_after(current, count).len(),
    ensures
        versions_after(current, count)[i] == 1 + i + if current > 0 {
            current
        } else {
            0
        },
        versions_after(current, count).len() == count - if current > 0 {
            current
        } else {
            0
        },
    decreases count,
{
    let rest = versions_after(current, (count - 1) as nat);
    if rest.len() > 0 {
        versions_come_one_after_the_other(current, (count - 1) as nat, 0);
        if i < rest.len() {
            versions_come_one_after_the_other(current, (count - 1) as nat, i);
        }
    } else if count - 1 > current && count > 1 {
        assert(rest.last() == count - 1);
    }
}

/// A database that is not at the last version is brought to it.
pub proof fn the_last_version_is_pending(current: int, count: nat)
    requires
        current < count,
        count > 0,
    ensures
        versions_after(current, count).last() == count,
{
}

/// A file of the wrong size is told by these texts.
pub proof fn files_of_the_wrong_size_are_told()
    ensures
        SHORT_FILE@ == "artifact file is shorter than its recorded size"@,
        SIZE_MISMATCH@ == "artifact file size does not match its database record"@,
{
}

/// Whether a setting has the given value wherever it is asked for.
pub open spec fn is_set<G: Fn(&str) -> Option<String>>(
    get: G,
    name: &str,
    value: Option<Seq<char>>,
) -> bool {
    forall|found: Option<String>| #[trigger]
        call_ensures(get, (name,), found) ==> match found {
            Some(text) => value == Some(text@),
            None => value is None,
        }
}

/// The settings beside the address are those that are made; without one the data is in
/// the working directory, there is no token, and the log tells what is of interest.
pub proof fn settings_that_are_made_count<G: Fn(&str) -> Option<String>>(
    get: G,
    config: Config,
    data_path: Option<Seq<char>>,
    token: Option<Seq<char>>,
    rust_log: Option<Seq<char>>,
)
    requires
        is_completed(get, config@),
        is_set(get, "ORCIS_DATA_PATH", data_path),
        is_set(get, "ORCIS_TOKEN", token),
        is_set(get, "RUST_LOG", rust_log),
    ensures
        match data_path {
            Some(text) => config.data_path@ == text,
            None => config.data_path@ == "."@,
        },
        match token {
            Some(text) => config.token matches Some(known) && known@ == text,
            None => config.token is None,
        },
        match rust_log {
            Some(text) => config.rust_log@ == text,
            None => config.rust_log@ == "info"@,
        },
{
}

/// Whether a route is one of the service.
pub open spec fn is_route(method: Seq<char>, path: Seq<char>) -> bool {
    ||| method == "GET"@ && path == "/"@
    ||| method == "GET"@ && path == "/healthz"@
    ||| method == "GET"@ && path == "/docs.md"@
    ||| method == "GET"@ && path == "/tasks"@
    ||| method == "GET"@ && path == "/tasks/{id}"@
    ||| method == "GET"@ && path == "/labels"@
    ||| method == "POST"@ && path == "/tasks"@
    ||| method == "POST"@ && path == "/tasks/claim"@
    ||| method == "POST"@ && path == "/tasks/{id}/claim"@
    ||| method == "POST"@ && path == "/tasks/{id}/release"@
    ||| method == "POST"@ && path == "/tasks/{id}/complete"@
    ||| method == "POST"@ && path == "/tasks/{id}/fail"@
    ||| method == "POST"@ && path == "/tasks/{id}/cancel"@
    ||| method == "POST"@ && path == "/tasks/{id}/retry"@
    ||| method == "PATCH"@ && path == "/tasks/{id}"@
    ||| method == "PUT"@ && path == "/labels/{name}"@
    ||| method == "DELETE"@ && path == "/tasks/{id}"@
}

/// The index names every route of the service and no other.
pub proof fn the_index_names_every_route(method: Seq<char>, path: Seq<char>)
    ensures
        is_route(method, path) <==> exists|i: int|
            0 <= i < endpoint_table().len() && (#[trigger] endpoint_table()[i]).0 == method
                && endpoint_table()[i].1 == path,
{
    let table = endpoint_table();
    assert(table.len() == 17);
    assert(table[0].1 == "/"@ && table[1].1 == "/healthz"@ && table[2].1 == "/docs.md"@);
    assert(table[3].0 == "POST"@ && table[3].1 == "/tasks"@);
    assert(table[4].0 == "GET"@ && table[4].1 == "/tasks"@);
    assert(table[5].0 == "GET"@ && table[5].1 == "/tasks/{id}"@);
    assert(table[6].0 == "PATCH"@ && table[6].1 == "/tasks/{id}"@);
    assert(table[7].0 == "DELETE"@ && table[7].1 == "/tasks/{id}"@);
    assert(table[8].0 == "POST"@ && table[8].1 == "/tasks/claim"@);
    assert(table[9].0 == "POST"@ && table[9].1 == "/tasks/{id}/claim"@);
    assert(table[10].0 == "POST"@ && table[10].1 == "/tasks/{id}/release"@);
    assert(table[11].0 == "POST"@ && table[11].1 == "/tasks/{id}/complete"@);
    assert(table[12].0 == "POST"@ && table[12].1 == "/tasks/{id}/fail"@);
    assert(table[13].0 == "POST"@ && table[13].1 == "/tasks/{id}/cancel"@);
    assert(table[14].0 == "POST"@ && table[14].1 == "/tasks/{id}/retry"@);
    assert(table[15].0 == "GET"@ && table[15].1 == "/labels"@);
    assert(table[16].0 == "PUT"@ && table[16].1 == "/labels/{name}"@);
}

} // verus!
