use vstd::prelude::*;
use vstd::string::*;
use crate::config::PushConfig;
use crate::record::Tweet;

verus! {

/// A message for a downstream channel.
pub struct Message {
    /// The channel's username.
    pub chat_id: String,
    /// The message body.
    pub text: String,
}

impl Message {
    /// The message that relays `tweet` to `channel`: its text, a blank line,
    /// and its creation time.
    pub fn new(channel: &str, tweet: Tweet) -> (r: Message)
        ensures
            r.chat_id@ == channel@,
            r.text@ == tweet.text@ + "\n\n"@ + tweet.created_at@,
    {
        let text = tweet.text.concat("\n\n").concat(tweet.created_at.as_str());
        Message { chat_id: String::from_str(channel), text }
    }
}

/// Position of the last configuration that relays `identity`, or -1.
pub open spec fn last_route(cfgs: Seq<PushConfig>, identity: Seq<char>) -> int
    decreases cfgs.len(),
{
    if cfgs.len() == 0 {
        -1
    } else if cfgs.last().from@ == identity {
        cfgs.len() - 1
    } else {
        last_route(cfgs.drop_last(), identity)
    }
}

/// The channel that receives the records of `identity`: that of the last
/// configuration naming it, as a later entry overrides an earlier one.
pub fn channel_for(cfgs: &Vec<PushConfig>, identity: &str) -> (r: Option<String>)
    ensures
        last_route(cfgs@, identity@) < 0 ==> r is None,
        last_route(cfgs@, identity@) >= 0 ==> r == Some(cfgs@[last_route(cfgs@, identity@)].username),
{
    let wanted = String::from_str(identity);
    let mut found: Option<String> = None;
    let mut i: usize = 0;
    while i < cfgs.len()
        invariant
            wanted@ == identity@,
            i <= cfgs@.len(),
            last_route(cfgs@.take(i as int), identity@) < 0 ==> found is None,
            last_route(cfgs@.take(i as int), identity@) >= 0 ==> found == Some(
                cfgs@[last_route(cfgs@.take(i as int), identity@)].username,
            ),
            -1 <= last_route(cfgs@.take(i as int), identity@) < i,
        decreases cfgs@.len() - i,
    {
        proof {
            let t = cfgs@.take(i + 1);
            assert(t.drop_last() =~= cfgs@.take(i as int));
            assert(t.last() == cfgs@[i as int]);
        }
        if cfgs[i].from == wanted {
            found = Some(cfgs[i].username.clone());
        }
        i = i + 1;
    }
    proof {
        assert(cfgs@.take(cfgs@.len() as int) =~= cfgs@);
    }
    found
}

} // verus!
