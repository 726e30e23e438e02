//! The friends table's policy: adding, removing, updating and listing friends.
//!
//! A friend's public key is pinned when the friend is added: an update whose
//! document carries another key is refused, never taken silently. Fetching a
//! document and reading it happen outside; these functions take what came of
//! that as an argument and say what is done for each outcome.
use crate::codec::Error;
use crate::schema::{now, FriendInfo, Friends, PublishUserInfo, Timestamp};
use crate::table::has_key;
use vstd::prelude::*;
use vstd::utf8::encode_utf8;

verus! {

/// What can be asked of the friends table.
pub enum FriendOpts {
    /// Add a friend to the list.
    Add { url: String },
    /// Remove a friend from the list.
    Remove { url: String },
    /// List all friends, with all their details or not.
    List { detailed: bool },
    /// Fetch a friend's document again.
    Update { url: String },
}

/// Why a friends-table operation failed.
#[derive(Clone, Copy, Debug, PartialEq, Eq, Structural)]
pub enum FriendError {
    /// The uri is already in the table.
    AlreadyKnown,
    /// The uri is not in the table.
    NotKnown,
    /// The fetched document's key is not the one pinned for this friend.
    KeyRotated,
    /// The fetched document's key is not the one the user was given.
    PublicKeyMismatch,
    /// The document could not be fetched.
    Transport,
    /// The fetched document was not accepted.
    Decode(Error),
}

/// How a uri is served.
#[derive(Clone, Copy, Debug, PartialEq, Eq, Structural)]
pub enum UrlCheck {
    /// Over https.
    Secure,
    /// Over plain http: only with the user's explicit consent.
    Insecure,
    /// Neither: refused.
    Rejected,
}

/// `https://`
pub open spec fn https_prefix() -> Seq<u8> {
    seq![104u8, 116, 116, 112, 115, 58, 47, 47]
}

/// `http://`
pub open spec fn http_prefix() -> Seq<u8> {
    seq![104u8, 116, 116, 112, 58, 47, 47]
}

/// Whether `s` starts with `p`.
pub open spec fn starts_with(s: Seq<u8>, p: Seq<u8>) -> bool {
    p.len() <= s.len() && s.subrange(0, p.len() as int) == p
}

/// How the uri `url` is served.
pub open spec fn url_check_of(url: Seq<char>) -> UrlCheck {
    if starts_with(encode_utf8(url), https_prefix()) {
        UrlCheck::Secure
    } else if starts_with(encode_utf8(url), http_prefix()) {
        UrlCheck::Insecure
    } else {
        UrlCheck::Rejected
    }
}

fn has_prefix(s: &[u8], p: &[u8]) -> (r: bool)
    ensures
        r == starts_with(s@, p@),
{
    if p.len() > s.len() {
        return false;
    }
    let mut i: usize = 0;
    while i < p.len()
        invariant
            p@.len() <= s@.len(),
            i <= p@.len(),
            forall|j: int| 0 <= j < i ==> s@[j] == p@[j],
        decreases p@.len() - i,
    {
        if s[i] != p[i] {
            assert(s@.subrange(0, p@.len() as int)[i as int] != p@[i as int]);
            return false;
        }
        i = i + 1;
    }
    assert(s@.subrange(0, p@.len() as int) =~= p@);
    true
}

/// How `url` is served: https is accepted, plain http needs the user's
/// consent, and anything else is refused.
pub fn check_url(url: &str) -> (r: UrlCheck)
    ensures
        r == url_check_of(url@),
{
    let https: [u8; 8] = [104, 116, 116, 112, 115, 58, 47, 47];
    let http: [u8; 7] = [104, 116, 116, 112, 58, 47, 47];
    assert(https@ =~= https_prefix());
    assert(http@ =~= http_prefix());
    let b = url.as_bytes();
    if has_prefix(b, https.as_slice()) {
        UrlCheck::Secure
    } else if has_prefix(b, http.as_slice()) {
        UrlCheck::Insecure
    } else {
        UrlCheck::Rejected
    }
}

/// The uri that a command names, if any.
pub open spec fn url_of(subcmd: FriendOpts) -> Option<Seq<char>> {
    match subcmd {
        FriendOpts::Add { url } => Some(url@),
        FriendOpts::Remove { url } => Some(url@),
        FriendOpts::Update { url } => Some(url@),
        FriendOpts::List { .. } => None,
    }
}

/// The check that a command needs before it goes ahead: how its uri is
/// served, or `None` for a command that names no uri.
pub fn friend(subcmd: &FriendOpts) -> (r: Option<UrlCheck>)
    ensures
        url_of(*subcmd) is None ==> r is None,
        url_of(*subcmd) matches Some(u) ==> r == Some(url_check_of(u)),
{
    match subcmd {
        FriendOpts::Add { url } => Some(check_url(url.as_str())),
        FriendOpts::Remove { url } => Some(check_url(url.as_str())),
        FriendOpts::Update { url } => Some(check_url(url.as_str())),
        FriendOpts::List { .. } => None,
    }
}

/// The texts of a list of pairs of strings.
pub open spec fn pair_views(v: Seq<(String, String)>) -> Seq<(Seq<char>, Seq<char>)> {
    v.map_values(|p: (String, String)| (p.0@, p.1@))
}

/// Uri and name of each entry of a friends listing.
pub open spec fn summaries(ls: Seq<(Seq<char>, FriendInfo)>) -> Seq<(Seq<char>, Seq<char>)> {
    ls.map_values(|e: (Seq<char>, FriendInfo)| (e.0, e.1.info.name@))
}

/// The entry of `uri` in a listing, as a friend was added or refreshed.
pub open spec fn entry_is(e: (Seq<char>, FriendInfo), uri: Seq<char>, info: PublishUserInfo, public: bool, now: Timestamp) -> bool {
    &&& e.0 == uri
    &&& e.1.info == info
    &&& e.1.public == public
    &&& e.1.last_updated == now
}

/// What adding the friend at `url` does to a listing, given the key the user
/// was told, what fetching the friend's document gave, and the time.
pub open spec fn added(
    old_ls: Seq<(Seq<char>, FriendInfo)>,
    new_ls: Seq<(Seq<char>, FriendInfo)>,
    url: Seq<char>,
    claimed_pubkey: Seq<char>,
    fetched: Result<PublishUserInfo, FriendError>,
    public: bool,
    now: Timestamp,
    r: Result<(), FriendError>,
) -> bool {
    &&& r is Err ==> new_ls == old_ls
    &&& has_key(old_ls, url) ==> r == Err::<(), FriendError>(FriendError::AlreadyKnown)
    &&& !has_key(old_ls, url) ==> match fetched {
        Err(e) => r == Err::<(), FriendError>(e),
        Ok(info) => if info.pubkey@ != claimed_pubkey {
            r == Err::<(), FriendError>(FriendError::PublicKeyMismatch)
        } else {
            &&& r is Ok
            &&& exists|i: int|
                0 <= i <= old_ls.len() && new_ls == #[trigger] old_ls.insert(i, new_ls[i])
                    && entry_is(new_ls[i], url, info, public, now)
        },
    }
}

/// What updating the friend at `url` does to a listing, given what fetching
/// the friend's document again gave, and the time.
pub open spec fn updated(
    old_ls: Seq<(Seq<char>, FriendInfo)>,
    new_ls: Seq<(Seq<char>, FriendInfo)>,
    url: Seq<char>,
    fetched: Result<PublishUserInfo, FriendError>,
    public: bool,
    now: Timestamp,
    r: Result<(), FriendError>,
) -> bool {
    &&& r is Err ==> new_ls == old_ls
    &&& !has_key(old_ls, url) ==> r == Err::<(), FriendError>(FriendError::NotKnown)
    &&& has_key(old_ls, url) ==> exists|i: int|
        0 <= i < old_ls.len() && #[trigger] old_ls[i].0 == url && match fetched {
            Err(e) => r == Err::<(), FriendError>(e),
            Ok(info) => if info.pubkey@ != old_ls[i].1.info.pubkey@ {
                r == Err::<(), FriendError>(FriendError::KeyRotated)
            } else {
                &&& r is Ok
                &&& new_ls == old_ls.update(i, new_ls[i])
                &&& entry_is(new_ls[i], url, info, public, now)
            },
        }
}

impl Friends {
    /// Whether `url` may be added: not yet in the table.
    pub fn check_new(&self, url: &str) -> (r: Result<(), FriendError>)
        requires
            self.map.wf(),
        ensures
            r is Ok <==> !has_key(self.map.listing(), url@),
            r is Err ==> r == Err::<(), FriendError>(FriendError::AlreadyKnown),
    {
        if self.map.contains_key(url) {
            Err(FriendError::AlreadyKnown)
        } else {
            Ok(())
        }
    }

    /// Whether `url` is in the table, as removing or updating it requires.
    pub fn check_known(&self, url: &str) -> (r: Result<(), FriendError>)
        requires
            self.map.wf(),
        ensures
            r is Ok <==> has_key(self.map.listing(), url@),
            r is Err ==> r == Err::<(), FriendError>(FriendError::NotKnown),
    {
        if self.map.contains_key(url) {
            Ok(())
        } else {
            Err(FriendError::NotKnown)
        }
    }

    /// Adds the friend at `url`, given the public key that the user was told
    /// out of band and the outcome of fetching and reading the friend's
    /// document. The table changes only if the document's key is the one the
    /// user was told.
    pub fn add_friend_at(
        &mut self,
        url: &str,
        claimed_pubkey: &str,
        fetched: Result<PublishUserInfo, FriendError>,
        public: bool,
        now: Timestamp,
    ) -> (r: Result<(), FriendError>)
        requires
            old(self).map.wf(),
        ensures
            final(self).map.wf(),
            added(old(self).map.listing(), final(self).map.listing(), url@, claimed_pubkey@, fetched, public, now, r),
    {
        if self.map.contains_key(url) {
            return Err(FriendError::AlreadyKnown);
        }
        let info = match fetched {
            Ok(info) => info,
            Err(e) => {
                return Err(e);
            },
        };
        if !str_eq(info.pubkey.as_str(), claimed_pubkey) {
            return Err(FriendError::PublicKeyMismatch);
        }
        let ghost old_ls = self.map.listing();
        let ghost info_v = info;
        self.map.insert(url.to_owned(), FriendInfo { last_updated: now, public, info });
        proof {
            let i = choose|i: int|
                0 <= i <= old_ls.len() && #[trigger] self.map.listing() == old_ls.insert(
                    i,
                    (url@, FriendInfo { last_updated: now, public, info: info_v }),
                );
            assert(self.map.listing()[i] == (url@, FriendInfo { last_updated: now, public, info: info_v }));
            assert(entry_is(self.map.listing()[i], url@, info_v, public, now));
        }
        Ok(())
    }

    /// Removes the friend at `url`, handing back its entry.
    pub fn remove_friend(&mut self, url: &str) -> (r: Result<FriendInfo, FriendError>)
        requires
            old(self).map.wf(),
        ensures
            final(self).map.wf(),
            !has_key(old(self).map.listing(), url@) ==> r == Err::<FriendInfo, FriendError>(
                FriendError::NotKnown,
            ) && final(self).map.listing() == old(self).map.listing(),
            has_key(old(self).map.listing(), url@) ==> exists|i: int|
                0 <= i < old(self).map.listing().len() && old(self).map.listing()[i].0 == url@
                    && r == Ok::<FriendInfo, FriendError>(old(self).map.listing()[i].1)
                    && final(self).map.listing() == #[trigger] old(self).map.listing().remove(i),
    {
        match self.map.remove(url) {
            Some(f) => Ok(f),
            None => Err(FriendError::NotKnown),
        }
    }

    /// Refreshes the friend at `url` from the outcome of fetching and reading
    /// its document again. The document must carry the key pinned when the
    /// friend was added.
    pub fn update_friend_at(
        &mut self,
        url: &str,
        fetched: Result<PublishUserInfo, FriendError>,
        public: bool,
        now: Timestamp,
    ) -> (r: Result<(), FriendError>)
        requires
            old(self).map.wf(),
        ensures
            final(self).map.wf(),
            updated(old(self).map.listing(), final(self).map.listing(), url@, fetched, public, now, r),
    {
        let ghost old_ls = self.map.listing();
        let ghost mut pinned: Seq<char> = Seq::empty();
        let ghost mut at: int = 0;
        let same_key = match self.map.get(url) {
            None => {
                return Err(FriendError::NotKnown);
            },
            Some(current) => {
                proof {
                    pinned = current.info.pubkey@;
                    at = choose|i: int| 0 <= i < old_ls.len() && #[trigger] old_ls[i] == (url@, *current);
                }
                match &fetched {
                    Ok(info) => str_eq(info.pubkey.as_str(), current.info.pubkey.as_str()),
                    Err(_) => true,
                }
            },
        };
        let ghost j = choose|j: int| 0 <= j < old_ls.len() && #[trigger] old_ls[j].0 == url@;
        proof {
            crate::table::lemma_unique_keys(old_ls, j);
            assert(old_ls[at].0 == url@);
            assert(at == j);
        }
        let info = match fetched {
            Ok(info) => info,
            Err(e) => {
                return Err(e);
            },
        };
        if !same_key {
            assert(info.pubkey@ != old_ls[j].1.info.pubkey@);
            return Err(FriendError::KeyRotated);
        }
        let ghost info_v = info;
        self.map.insert(url.to_owned(), FriendInfo { last_updated: now, public, info });
        proof {
            let i = choose|i: int|
                0 <= i < old_ls.len() && old_ls[i].0 == url@ && #[trigger] self.map.listing()
                    == old_ls.update(
                    i,
                    (url@, FriendInfo { last_updated: now, public, info: info_v }),
                );
            assert(i == j);
            assert(self.map.listing()[i] == (url@, FriendInfo { last_updated: now, public, info: info_v }));
        }
        Ok(())
    }

    /// Adds the friend at `url` (see `add_friend_at`), stamped with the
    /// current time.
    pub fn add_friend(
        &mut self,
        url: &str,
        claimed_pubkey: &str,
        fetched: Result<PublishUserInfo, FriendError>,
        public: bool,
    ) -> (r: Result<(), FriendError>)
        requires
            old(self).map.wf(),
        ensures
            final(self).map.wf(),
            exists|t: Timestamp|
                #[trigger] added(
                    old(self).map.listing(),
                    final(self).map.listing(),
                    url@,
                    claimed_pubkey@,
                    fetched,
                    public,
                    t,
                    r,
                ),
    {
        let t = now();
        self.add_friend_at(url, claimed_pubkey, fetched, public, t)
    }

    /// Refreshes the friend at `url` (see `update_friend_at`), stamped with
    /// the current time.
    pub fn update_friend(
        &mut self,
        url: &str,
        fetched: Result<PublishUserInfo, FriendError>,
        public: bool,
    ) -> (r: Result<(), FriendError>)
        requires
            old(self).map.wf(),
        ensures
            final(self).map.wf(),
            exists|t: Timestamp|
                #[trigger] updated(
                    old(self).map.listing(),
                    final(self).map.listing(),
                    url@,
                    fetched,
                    public,
                    t,
                    r,
                ),
    {
        let t = now();
        self.update_friend_at(url, fetched, public, t)
    }

    /// The uri and name of each friend, in ascending order of uri.
    pub fn list_friends(&self) -> (r: Vec<(String, String)>)
        ensures
            pair_views(r@) == summaries(self.map.listing()),
    {
        let mut out: Vec<(String, String)> = Vec::new();
        let n = self.map.len();
        let mut i: usize = 0;
        while i < n
            invariant
                n == self.map.listing().len(),
                i <= n,
                out@.len() == i,
                pair_views(out@) == summaries(self.map.listing()).subrange(0, i as int),
            decreases n - i,
        {
            let uri = self.map.key_at(i).clone();
            let name = self.map.value_at(i).info.name.clone();
            let ghost before = out@;
            out.push((uri, name));
            proof {
                let ls = self.map.listing();
                assert(summaries(ls)[i as int] == (ls[i as int].0, ls[i as int].1.info.name@));
                assert forall|k: int| 0 <= k <= i implies #[trigger] pair_views(out@)[k] == summaries(ls)[k] by {
                    if k < i {
                        assert(out@[k] == before[k]);
                        assert(pair_views(before)[k] == summaries(ls).subrange(0, i as int)[k]);
                    }
                }
                assert(pair_views(out@) =~= summaries(ls).subrange(0, i + 1));
            }
            i = i + 1;
        }
        assert(summaries(self.map.listing()).subrange(0, n as int) =~= summaries(self.map.listing()));
        out
    }
}

/// Whether two texts are the same.
fn str_eq(a: &str, b: &str) -> (r: bool)
    ensures
        r == (a@ == b@),
{
    let x = a.to_owned();
    let y = b.to_owned();
    x == y
}

/// Listing friends depends on nothing but what the table holds: two looks at
/// tables with the same entries (such as one table, unchanged in between)
/// give the same uris and names, in the same order.
pub proof fn lemma_listing_stable(a: &Friends, b: &Friends)
    requires
        a.map.wf(),
        b.map.wf(),
        forall|e: (Seq<char>, FriendInfo)| a.map.listing().contains(e) <==> b.map.listing().contains(e),
    ensures
        summaries(a.map.listing()) == summaries(b.map.listing()),
{
    crate::table::lemma_listing_determined(a.map.listing(), b.map.listing());
}

} // verus!
