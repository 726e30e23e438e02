use frauth::codec::Error;
use frauth::friend::{check_url, friend, FriendError, FriendOpts, UrlCheck};
use frauth::publish::publish_info_at;
use frauth::schema::{FriendInfo, Friends, PublishFriend, PublishUserInfo, Timestamp, UserInfo};
use frauth::crypto::{KeyPair, PrivateKey};
use frauth::table::Table;

fn ts(secs: i64) -> Timestamp {
    Timestamp { secs, nanos: 0 }
}

fn doc(name: &str, pubkey: &str) -> PublishUserInfo {
    PublishUserInfo {
        name: name.to_string(),
        status: None,
        pubkey: pubkey.to_string(),
        last_updated: None,
        friends: Vec::<PublishFriend>::new(),
        identities: Table::new(),
    }
}

fn uris(friends: &Friends) -> Vec<String> {
    friends.list_friends().into_iter().map(|(u, _)| u).collect()
}

#[test]
fn url_schemes() {
    assert_eq!(check_url("https://example.com/a.frauth"), UrlCheck::Secure);
    assert_eq!(check_url("http://example.com/a.frauth"), UrlCheck::Insecure);
    assert_eq!(check_url("ftp://example.com/a.frauth"), UrlCheck::Rejected);
    assert_eq!(check_url("https:/"), UrlCheck::Rejected);
    assert_eq!(check_url(""), UrlCheck::Rejected);
}

#[test]
fn commands_check_their_url() {
    assert_eq!(friend(&FriendOpts::List { detailed: true }), None);
    assert_eq!(friend(&FriendOpts::Add { url: "http://a".to_string() }), Some(UrlCheck::Insecure));
    assert_eq!(friend(&FriendOpts::Remove { url: "https://a".to_string() }), Some(UrlCheck::Secure));
    assert_eq!(friend(&FriendOpts::Update { url: "gopher://a".to_string() }), Some(UrlCheck::Rejected));
}

#[test]
fn add_then_list_in_uri_order() {
    let mut f = Friends::new();
    f.add_friend_at("https://c.example", "KC", Ok(doc("Carol", "KC")), true, ts(3)).unwrap();
    f.add_friend_at("https://a.example", "KA", Ok(doc("Alice", "KA")), false, ts(1)).unwrap();
    f.add_friend_at("https://b.example", "KB", Ok(doc("Bob", "KB")), true, ts(2)).unwrap();
    let listed = f.list_friends();
    assert_eq!(
        listed,
        vec![
            ("https://a.example".to_string(), "Alice".to_string()),
            ("https://b.example".to_string(), "Bob".to_string()),
            ("https://c.example".to_string(), "Carol".to_string()),
        ]
    );
    let entry: &FriendInfo = f.map.get("https://a.example").unwrap();
    assert_eq!(entry.last_updated, ts(1));
    assert!(!entry.public);
}

#[test]
fn listing_twice_gives_the_same_sequence() {
    let mut f = Friends::new();
    f.add_friend_at("https://z.example", "KZ", Ok(doc("Zed", "KZ")), true, ts(1)).unwrap();
    f.add_friend_at("https://m.example", "KM", Ok(doc("Mo", "KM")), true, ts(1)).unwrap();
    assert_eq!(f.list_friends(), f.list_friends());
    f.remove_friend("https://z.example").unwrap();
    assert_eq!(uris(&f), vec!["https://m.example".to_string()]);
}

#[test]
fn adding_a_known_friend_is_refused() {
    let mut f = Friends::new();
    f.add_friend_at("https://a.example", "KA", Ok(doc("Alice", "KA")), true, ts(1)).unwrap();
    assert_eq!(f.check_new("https://a.example"), Err(FriendError::AlreadyKnown));
    assert_eq!(
        f.add_friend_at("https://a.example", "KA", Ok(doc("Alice 2", "KA")), true, ts(2)),
        Err(FriendError::AlreadyKnown)
    );
    assert_eq!(f.map.get("https://a.example").unwrap().info.name, "Alice");
}

#[test]
fn mismatched_claimed_key_leaves_table_unchanged() {
    let mut f = Friends::new();
    f.add_friend_at("https://a.example", "KA", Ok(doc("Alice", "KA")), true, ts(1)).unwrap();
    let before = f.list_friends();
    assert_eq!(
        f.add_friend_at("https://b.example", "KB", Ok(doc("Mallory", "KM")), true, ts(2)),
        Err(FriendError::PublicKeyMismatch)
    );
    assert_eq!(f.list_friends(), before);
    assert!(!f.map.contains_key("https://b.example"));
}

#[test]
fn fetch_failures_are_passed_on() {
    let mut f = Friends::new();
    assert_eq!(
        f.add_friend_at("https://a.example", "KA", Err(FriendError::Transport), true, ts(1)),
        Err(FriendError::Transport)
    );
    assert_eq!(
        f.add_friend_at("https://a.example", "KA", Err(FriendError::Decode(Error::Verification)), true, ts(1)),
        Err(FriendError::Decode(Error::Verification))
    );
    assert_eq!(f.map.len(), 0);
}

#[test]
fn removing_an_unknown_friend_is_refused() {
    let mut f = Friends::new();
    assert_eq!(f.remove_friend("https://a.example").unwrap_err(), FriendError::NotKnown);
    assert_eq!(f.check_known("https://a.example"), Err(FriendError::NotKnown));
    f.add_friend_at("https://a.example", "KA", Ok(doc("Alice", "KA")), true, ts(1)).unwrap();
    let removed = f.remove_friend("https://a.example").unwrap();
    assert_eq!(removed.info.name, "Alice");
    assert_eq!(f.map.len(), 0);
}

#[test]
fn update_refreshes_entry() {
    let mut f = Friends::new();
    f.add_friend_at("https://a.example", "KA", Ok(doc("Alice", "KA")), true, ts(1)).unwrap();
    f.update_friend_at("https://a.example", Ok(doc("Alice B.", "KA")), false, ts(5)).unwrap();
    let e = f.map.get("https://a.example").unwrap();
    assert_eq!(e.info.name, "Alice B.");
    assert_eq!(e.last_updated, ts(5));
    assert!(!e.public);
    assert_eq!(f.map.len(), 1);
}

#[test]
fn update_with_rotated_key_is_refused() {
    let mut f = Friends::new();
    f.add_friend_at("https://a.example", "KA", Ok(doc("Alice", "KA")), true, ts(1)).unwrap();
    assert_eq!(
        f.update_friend_at("https://a.example", Ok(doc("Alice", "KX")), true, ts(2)),
        Err(FriendError::KeyRotated)
    );
    assert_eq!(f.map.get("https://a.example").unwrap().info.pubkey, "KA");
    assert_eq!(
        f.update_friend_at("https://b.example", Ok(doc("Bob", "KB")), true, ts(2)),
        Err(FriendError::NotKnown)
    );
}

#[test]
fn published_friends_are_the_public_ones() {
    let mut f = Friends::new();
    f.add_friend_at("https://b.example", "KB", Ok(doc("Bob", "KB")), true, ts(1)).unwrap();
    f.add_friend_at("https://a.example", "KA", Ok(doc("Alice", "KA")), false, ts(1)).unwrap();
    f.add_friend_at("https://c.example", "KC", Ok(doc("Carol", "KC")), true, ts(1)).unwrap();
    let mut identities = Table::new();
    identities.insert("github".to_string(), "me".to_string());
    let user = UserInfo {
        name: "Me".to_string(),
        status: Some("hi".to_string()),
        keypair: KeyPair::from_secret(PrivateKey { bytes: [7u8; 32] }),
        identities,
    };
    let info = publish_info_at(&user, &f, ts(9));
    let published: Vec<(String, String)> =
        info.friends.iter().map(|p| (p.uri.clone(), p.pubkey.clone())).collect();
    assert_eq!(
        published,
        vec![
            ("https://b.example".to_string(), "KB".to_string()),
            ("https://c.example".to_string(), "KC".to_string()),
        ]
    );
    assert_eq!(info.name, "Me");
    assert_eq!(info.status, Some("hi".to_string()));
    assert_eq!(info.pubkey, user.keypair.public_text());
    assert_eq!(info.last_updated, Some(ts(9)));
    assert_eq!(info.identities.get("github"), Some(&"me".to_string()));
}

#[test]
fn adding_and_updating_stamp_the_current_time() {
    let mut f = Friends::new();
    f.add_friend("https://a.example", "KA", Ok(doc("Alice", "KA")), true).unwrap();
    let added = f.map.get("https://a.example").unwrap().last_updated;
    assert!(added.secs > 1_500_000_000);
    assert_eq!(
        f.add_friend("https://b.example", "KB", Ok(doc("Bob", "KX")), true),
        Err(FriendError::PublicKeyMismatch)
    );
    f.update_friend("https://a.example", Ok(doc("Alice 2", "KA")), false).unwrap();
    let e = f.map.get("https://a.example").unwrap();
    assert_eq!(e.info.name, "Alice 2");
    assert!(e.last_updated.secs >= added.secs);
    assert_eq!(
        f.update_friend("https://a.example", Ok(doc("Alice 3", "KZ")), false),
        Err(FriendError::KeyRotated)
    );
}

#[test]
fn publishing_stamps_the_current_time() {
    let f = Friends::new();
    let user = UserInfo {
        name: "Me".to_string(),
        status: None,
        keypair: KeyPair::from_secret(PrivateKey { bytes: [9u8; 32] }),
        identities: Table::new(),
    };
    let info = frauth::publish::publish_info(&user, &f);
    assert!(info.last_updated.unwrap().secs > 1_500_000_000);
    assert!(info.friends.is_empty());
    assert_eq!(info.status, None);
}
