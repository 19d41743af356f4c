use vstd::prelude::*;

verus! {

/// How one identity is polled.
pub struct PollConfig {
    pub included: bool,
    pub username: String,
    pub max_results: Option<u8>,
    pub start_time: Option<String>,
    pub end_time: Option<String>,
    pub since_id: Option<String>,
}

/// Where the records of one identity are delivered.
pub struct PushConfig {
    pub included: bool,
    pub from: String,
    pub username: String,
}

/// Settings of a whole run, read once at startup.
pub struct Config {
    pub rocksdb_path: String,
    pub twitter_token: Option<String>,
    pub telegram_token: Option<String>,
    pub poll: Option<Vec<PollConfig>>,
    pub push: Option<Vec<PushConfig>>,
}

/// Arguments of a one-shot archive run.
pub struct Args {
    pub twitter_api_token: String,
    pub usernames: String,
    pub rocksdb_path: String,
}

/// Arguments of the archive command.
pub struct Archive {
    pub twitter_api_token: String,
    pub rocksdb_path: String,
    pub twitter_usernames: String,
}

/// Arguments of the sync command.
pub struct Sync {
    pub telegram_bot_api_token: String,
    pub rocksdb_path: String,
    pub twitter_usernames: String,
    pub channel_usernames: String,
}

/// Arguments of the export command.
pub struct Export {
    pub rocksdb_path: String,
}

impl PollConfig {
    /// A start time already known (from persisted state) wins over the
    /// configured one.
    pub fn insert_start_time(&mut self, start_time: Option<String>)
        ensures
            final(self).start_time == (if start_time is Some {
                start_time
            } else {
                old(self).start_time
            }),
            final(self).included == old(self).included,
            final(self).username == old(self).username,
            final(self).max_results == old(self).max_results,
            final(self).end_time == old(self).end_time,
            final(self).since_id == old(self).since_id,
    {
        if let Some(t) = start_time {
            self.start_time = Some(t);
        }
    }
}

/// The configurations marked as included, in their order.
pub fn included_poll_configs(cfgs: Vec<PollConfig>) -> (r: Vec<PollConfig>)
    ensures
        r@ == cfgs@.filter(|c: PollConfig| c.included),
{
    let mut r: Vec<PollConfig> = Vec::new();
    let mut rest = cfgs;
    let ghost all = rest@;
    let mut taken: usize = 0;
    let n = rest.len();
    while rest.len() > 0
        invariant
            all.len() == n,
            taken + rest@.len() == all.len(),
            rest@ == all.subrange(taken as int, all.len() as int),
            r@ == all.take(taken as int).filter(|c: PollConfig| c.included),
        decreases rest@.len(),
    {
        let c = rest.remove(0);
        proof {
            assert(c == all[taken as int]);
            assert(all.take(taken + 1).drop_last() =~= all.take(taken as int));
            reveal(Seq::filter);
            assert(rest@ =~= all.subrange(taken + 1, all.len() as int));
        }
        if c.included {
            r.push(c);
        }
        taken = taken + 1;
    }
    proof {
        assert(all.take(all.len() as int) =~= all);
    }
    r
}

/// The configurations marked as included, in their order.
pub fn included_push_configs(cfgs: Vec<PushConfig>) -> (r: Vec<PushConfig>)
    ensures
        r@ == cfgs@.filter(|c: PushConfig| c.included),
{
    let mut r: Vec<PushConfig> = Vec::new();
    let mut rest = cfgs;
    let ghost all = rest@;
    let mut taken: usize = 0;
    let n = rest.len();
    while rest.len() > 0
        invariant
            all.len() == n,
            taken + rest@.len() == all.len(),
            rest@ == all.subrange(taken as int, all.len() as int),
            r@ == all.take(taken as int).filter(|c: PushConfig| c.included),
        decreases rest@.len(),
    {
        let c = rest.remove(0);
        proof {
            assert(c == all[taken as int]);
            assert(all.take(taken + 1).drop_last() =~= all.take(taken as int));
            reveal(Seq::filter);
            assert(rest@ =~= all.subrange(taken + 1, all.len() as int));
        }
        if c.included {
            r.push(c);
        }
        taken = taken + 1;
    }
    proof {
        assert(all.take(all.len() as int) =~= all);
    }
    r
}

} // verus!
