//! The configuration records whose values the verified logic reads: the
//! database naming, the global pacing bound, and the upload script location.

use vstd::prelude::*;
use vstd::string::StringExecFns;
use crate::text::dec_str_int;

verus! {

/// Database naming and pooling.
#[derive(Debug, PartialEq, Eq, Clone)]
pub struct DatabaseSetting {
    pub max_connections: u32,
    pub log_table_name: String,
    pub group_table_prefix: String,
}

impl DatabaseSetting {
    /// The name of one channel's segment table under this configuration.
    pub fn group_table_name(&self, group_id: i64) -> (r: String)
        ensures
            r@ == self.group_table_prefix@ + dec_str_int(group_id as int),
    {
        crate::sql::get_group_msg_table_name(self.group_table_prefix.as_str(), group_id)
    }
}

impl Default for DatabaseSetting {
    fn default() -> (r: Self)
        ensures
            r.max_connections == 5,
            r.log_table_name@ == "bot_log"@,
            r.group_table_prefix@ == "message"@,
    {
        DatabaseSetting {
            max_connections: 5,
            log_table_name: String::from_str("bot_log"),
            group_table_prefix: String::from_str("message"),
        }
    }
}

/// Process-wide pacing.
#[derive(Debug, PartialEq, Eq, Clone)]
pub struct GlobalSetting {
    pub max_sleep_sec: usize,
}

impl Default for GlobalSetting {
    fn default() -> (r: Self)
        ensures
            r.max_sleep_sec == 8,
    {
        GlobalSetting { max_sleep_sec: 8 }
    }
}

/// Where the upload script lives.
#[derive(Debug, PartialEq, Eq, Clone)]
pub struct ObjectStorageSetting {
    pub script_path: String,
}

impl Default for ObjectStorageSetting {
    fn default() -> (r: Self)
        ensures
            r.script_path@ == "/a/b/c"@,
    {
        ObjectStorageSetting { script_path: String::from_str("/a/b/c") }
    }
}

} // verus!
