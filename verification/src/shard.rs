use vstd::prelude::*;

verus! {

/// How this process takes part in multi-node sharding.
#[derive(Clone, Copy, Debug, PartialEq, Eq, Structural)]
pub struct ShardNodeConfig {
    pub shard_id: Option<u32>,
    pub distributed: bool,
}

impl ShardNodeConfig {
    /// All shards in this process.
    pub fn cluster() -> (c: Self)
        ensures
            c == (ShardNodeConfig { shard_id: None, distributed: false }),
    {
        ShardNodeConfig { shard_id: None, distributed: false }
    }

    /// This process runs only shard `shard_id`.
    pub fn single(shard_id: u32) -> (c: Self)
        ensures
            c == (ShardNodeConfig { shard_id: Some(shard_id), distributed: true }),
    {
        ShardNodeConfig { shard_id: Some(shard_id), distributed: true }
    }

    /// The configuration named by an optional `TBC_SHARD_ID` setting: absent means a
    /// cluster; present but not a number means shard 0.
    pub fn from_setting(setting: Option<&str>) -> (c: Self)
        ensures
            setting is None ==> c == Self::cluster_spec(),
            setting matches Some(s) ==> c.distributed && c.shard_id == Some(
                match crate::persist::decimal_literal_value(s@) {
                    Some(n) => if n <= u32::MAX { n as u32 } else { 0u32 },
                    None => 0u32,
                },
            ),
    {
        match setting {
            None => Self::cluster(),
            Some(s) => {
                let id: u32 = match crate::persist::parse_u128(s) {
                    Ok(n) => if n <= u32::MAX as u128 { n as u32 } else { 0 },
                    Err(_) => 0,
                };
                Self::single(id)
            },
        }
    }

    pub open spec fn cluster_spec() -> Self {
        ShardNodeConfig { shard_id: None, distributed: false }
    }

    pub open spec fn label_text(&self) -> Seq<char> {
        if self.distributed { "distributed-shard"@ } else { "cluster"@ }
    }

    pub fn label(&self) -> (r: &'static str)
        ensures
            r@ == self.label_text(),
    {
        if self.distributed {
            "distributed-shard"
        } else {
            "cluster"
        }
    }
}

/// What a node reports about its sharding.
#[derive(Clone, Debug)]
pub struct ShardNodeStatus {
    pub mode: String,
    pub shard_id: Option<u32>,
    pub distributed: bool,
    pub frame_count: usize,
}

} // verus!
