//! Building the local user's published identity.
use crate::crypto::base64_text;
use crate::schema::{now, FriendInfo, Friends, PublishFriend, PublishUserInfo, Timestamp, UserInfo};
use vstd::prelude::*;

verus! {

/// Where a rendered document goes: a file, or standard output.
pub struct PublishOpts {
    pub output: Option<String>,
}

/// Uri and public key of each friend that is marked public, in the order of
/// the listing.
pub open spec fn public_friends(ls: Seq<(Seq<char>, FriendInfo)>) -> Seq<(Seq<char>, Seq<char>)>
    decreases ls.len(),
{
    if ls.len() == 0 {
        Seq::empty()
    } else if ls.last().1.public {
        public_friends(ls.drop_last()).push((ls.last().0, ls.last().1.info.pubkey@))
    } else {
        public_friends(ls.drop_last())
    }
}

/// Uri and public key of each published friend.
pub open spec fn friend_views(v: Seq<PublishFriend>) -> Seq<(Seq<char>, Seq<char>)> {
    v.map_values(|f: PublishFriend| (f.uri@, f.pubkey@))
}

/// The texts of an optional string.
pub open spec fn opt_view(s: Option<String>) -> Option<Seq<char>> {
    match s {
        Some(t) => Some(t@),
        None => None,
    }
}

/// The published identity of `user` at time `now`: the user's name, status,
/// public key and identities, and the friends marked public (no others), in
/// ascending order of uri.
pub fn publish_info_at(user: &UserInfo, friends: &Friends, now: Timestamp) -> (r: PublishUserInfo)
    requires
        user.identities.wf(),
    ensures
        r.name@ == user.name@,
        opt_view(r.status) == opt_view(user.status),
        r.pubkey@ == base64_text(user.keypair.public_bytes()),
        r.last_updated == Some(now),
        r.identities.listing() == user.identities.listing(),
        r.identities.wf(),
        friend_views(r.friends@) == public_friends(friends.map.listing()),
{
    let ghost ls = friends.map.listing();
    let mut pub_friends: Vec<PublishFriend> = Vec::new();
    let n = friends.map.len();
    let mut i: usize = 0;
    assert(ls.subrange(0, 0) =~= Seq::<(Seq<char>, FriendInfo)>::empty());
    while i < n
        invariant
            ls == friends.map.listing(),
            n == ls.len(),
            i <= n,
            friend_views(pub_friends@) == public_friends(ls.subrange(0, i as int)),
        decreases n - i,
    {
        let f = friends.map.value_at(i);
        assert(ls.subrange(0, i + 1).drop_last() =~= ls.subrange(0, i as int));
        if f.public {
            let uri = friends.map.key_at(i).clone();
            let pubkey = f.info.pubkey.clone();
            let ghost before = pub_friends@;
            pub_friends.push(PublishFriend { uri, pubkey });
            assert(friend_views(pub_friends@) =~= friend_views(before).push(
                (ls[i as int].0, ls[i as int].1.info.pubkey@),
            ));
        }
        i = i + 1;
    }
    assert(ls.subrange(0, n as int) =~= ls);
    let status = match &user.status {
        Some(s) => Some(s.clone()),
        None => None,
    };
    PublishUserInfo {
        name: user.name.clone(),
        status,
        pubkey: user.keypair.public_text(),
        last_updated: Some(now),
        friends: pub_friends,
        identities: user.identities.duplicate(),
    }
}

/// The published identity of `user` (see `publish_info_at`), stamped with
/// the current time.
pub fn publish_info(user: &UserInfo, friends: &Friends) -> (r: PublishUserInfo)
    requires
        user.identities.wf(),
    ensures
        r.name@ == user.name@,
        opt_view(r.status) == opt_view(user.status),
        r.pubkey@ == base64_text(user.keypair.public_bytes()),
        r.last_updated is Some,
        r.identities.listing() == user.identities.listing(),
        r.identities.wf(),
        friend_views(r.friends@) == public_friends(friends.map.listing()),
{
    let t = now();
    publish_info_at(user, friends, t)
}

} // verus!
