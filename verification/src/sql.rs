//! The SQL text of the persisted layout: one segment table per channel,
//! named prefix + channel id, and one shared log table.  The statements are
//! built here with exact contracts; the process around the library executes
//! them against the database engine.

use vstd::prelude::*;
use vstd::string::StringExecFns;
use crate::text::{dec_str_int, i64_to_dec};

verus! {

/// The name of a channel's segment table: the configured prefix followed by
/// the channel id in decimal.
pub fn get_group_msg_table_name(prefix: &str, group_id: i64) -> (r: String)
    ensures
        r@ == prefix@ + dec_str_int(group_id as int),
{
    let mut r = String::from_str(prefix);
    let digits = i64_to_dec(group_id);
    r.append(digits.as_str());
    r
}

/// The create-if-absent statement for a channel's segment table and its two
/// secondary indexes, on `message_id` and on `time`.
pub fn create_group_msg_table(table_name: &str) -> (r: String)
    ensures
        r@ == "CREATE TABLE IF NOT EXISTS "@ + table_name@
            + " (auto_id INTEGER PRIMARY KEY, message_id INTEGER, time TEXT, sender_id INTEGER, sender_name TEXT, type TEXT, content TEXT, interpret TEXT); CREATE INDEX IF NOT EXISTS msg_id ON "@
            + table_name@ + " (message_id); CREATE INDEX IF NOT EXISTS msg_time ON "@
            + table_name@ + " (time);"@,
{
    let mut r = String::from_str("CREATE TABLE IF NOT EXISTS ");
    r.append(table_name);
    r.append(
        " (auto_id INTEGER PRIMARY KEY, message_id INTEGER, time TEXT, sender_id INTEGER, sender_name TEXT, type TEXT, content TEXT, interpret TEXT); CREATE INDEX IF NOT EXISTS msg_id ON ",
    );
    r.append(table_name);
    r.append(" (message_id); CREATE INDEX IF NOT EXISTS msg_time ON ");
    r.append(table_name);
    r.append(" (time);");
    r
}

/// The insert statement for one segment row of a channel table.
pub fn insert_group_msg(table_name: &str) -> (r: String)
    ensures
        r@ == "INSERT INTO "@ + table_name@
            + " (message_id, time, sender_id, sender_name, type, content, interpret) VALUES ($1, $2, $3, $4, $5, $6, $7);"@,
{
    let mut r = String::from_str("INSERT INTO ");
    r.append(table_name);
    r.append(
        " (message_id, time, sender_id, sender_name, type, content, interpret) VALUES ($1, $2, $3, $4, $5, $6, $7);",
    );
    r
}

/// The create-if-absent statement for the shared log table and its index on
/// `time`.
pub fn create_log_table(table_name: &str) -> (r: String)
    ensures
        r@ == "CREATE TABLE IF NOT EXISTS "@ + table_name@
            + " (auto_id INTEGER PRIMARY KEY, time TEXT, level TEXT, content TEXT); CREATE INDEX IF NOT EXISTS log_time ON "@
            + table_name@ + " (time);"@,
{
    let mut r = String::from_str("CREATE TABLE IF NOT EXISTS ");
    r.append(table_name);
    r.append(
        " (auto_id INTEGER PRIMARY KEY, time TEXT, level TEXT, content TEXT); CREATE INDEX IF NOT EXISTS log_time ON ",
    );
    r.append(table_name);
    r.append(" (time);");
    r
}

/// The insert statement for one log row.
pub fn insert_log(table_name: &str) -> (r: String)
    ensures
        r@ == "INSERT INTO "@ + table_name@ + " (time, level, content) VALUES ($1, $2, $3);"@,
{
    let mut r = String::from_str("INSERT INTO ");
    r.append(table_name);
    r.append(" (time, level, content) VALUES ($1, $2, $3);");
    r
}

/// The query behind recent history: every row whose timestamp is among the
/// `$1` most recent distinct timestamps, ascending.
pub fn load_n_latest_msg(table_name: &str) -> (r: String)
    ensures
        r@ == "SELECT message_id, time, sender_id, sender_name, type, content, interpret FROM "@
            + table_name@ + " WHERE time IN (SELECT DISTINCT time FROM "@ + table_name@
            + " ORDER BY time DESC LIMIT $1) ORDER BY time ASC;"@,
{
    let mut r = String::from_str(
        "SELECT message_id, time, sender_id, sender_name, type, content, interpret FROM ",
    );
    r.append(table_name);
    r.append(" WHERE time IN (SELECT DISTINCT time FROM ");
    r.append(table_name);
    r.append(" ORDER BY time DESC LIMIT $1) ORDER BY time ASC;");
    r
}

/// The query behind recent log rows, shaped as [`load_n_latest_msg`].
pub fn load_n_latest_log(table_name: &str) -> (r: String)
    ensures
        r@ == "SELECT time, level, content FROM "@ + table_name@
            + " WHERE time IN (SELECT DISTINCT time FROM "@ + table_name@
            + " ORDER BY time DESC LIMIT $1) ORDER BY time ASC;"@,
{
    let mut r = String::from_str("SELECT time, level, content FROM ");
    r.append(table_name);
    r.append(" WHERE time IN (SELECT DISTINCT time FROM ");
    r.append(table_name);
    r.append(" ORDER BY time DESC LIMIT $1) ORDER BY time ASC;");
    r
}

/// The point-lookup query for every segment of one message.
pub fn find_segment_by_id(table_name: &str) -> (r: String)
    ensures
        r@ == "SELECT message_id, time, sender_id, sender_name, type, content, interpret FROM "@
            + table_name@ + " WHERE message_id = $1;"@,
{
    let mut r = String::from_str(
        "SELECT message_id, time, sender_id, sender_name, type, content, interpret FROM ",
    );
    r.append(table_name);
    r.append(" WHERE message_id = $1;");
    r
}

} // verus!
