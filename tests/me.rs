use frauth::crypto::{KeyPair, PrivateKey};
use frauth::me::{edit, me, view, view_all, EditOpts, IdentitiesOpts, MeError, MeOpts, StatusOpts, ViewCmd};
use frauth::schema::UserInfo;
use frauth::table::Table;

fn user() -> UserInfo {
    let mut identities = Table::new();
    identities.insert("twitter".to_string(), "@me".to_string());
    identities.insert("email".to_string(), "me@example.com".to_string());
    UserInfo {
        name: "Me".to_string(),
        status: None,
        keypair: KeyPair::from_secret(PrivateKey { bytes: [3u8; 32] }),
        identities,
    }
}

#[test]
fn overview_lists_everything() {
    let u = user();
    let lines = view_all(&u);
    assert_eq!(
        lines,
        vec![
            "Name:       Me".to_string(),
            "Status:     <no status is set>".to_string(),
            format!("Public key: {}", u.keypair.public_text()),
            String::new(),
            "Identities:".to_string(),
            "  - email: me@example.com".to_string(),
            "  - twitter: @me".to_string(),
        ]
    );
}

#[test]
fn single_parts() {
    let mut u = user();
    assert_eq!(view(&u, ViewCmd::Name), vec!["Me".to_string()]);
    assert_eq!(view(&u, ViewCmd::Status), vec!["You haven't set a status!".to_string()]);
    assert_eq!(view(&u, ViewCmd::Pubkey), vec![u.keypair.public_text()]);
    assert_eq!(
        view(&u, ViewCmd::Identities),
        vec!["email: me@example.com".to_string(), "twitter: @me".to_string()]
    );
    u.status = Some("busy".to_string());
    assert_eq!(me(&mut u, &MeOpts::View { cmd: Some(ViewCmd::Status) }), Ok(vec!["busy".to_string()]));
}

#[test]
fn edits() {
    let mut u = user();
    assert_eq!(edit(&mut u, &EditOpts::Name { name: "New".to_string() }), Ok(()));
    assert_eq!(u.name, "New");
    let set = EditOpts::Status(StatusOpts { status: Some("away".to_string()), clear: false });
    assert_eq!(edit(&mut u, &set), Ok(()));
    assert_eq!(u.status, Some("away".to_string()));
    let clear = EditOpts::Status(StatusOpts { status: None, clear: true });
    assert_eq!(me(&mut u, &MeOpts::Edit(clear)), Ok(vec![]));
    assert_eq!(u.status, None);
}

#[test]
fn identity_edits() {
    let mut u = user();
    let add = EditOpts::Identities(IdentitiesOpts::Add { name: "github".to_string(), id: "me".to_string() });
    assert_eq!(edit(&mut u, &add), Ok(()));
    assert_eq!(edit(&mut u, &add), Err(MeError::IdentityExists));
    let modify = EditOpts::Identities(IdentitiesOpts::Modify { name: "github".to_string(), id: "me2".to_string() });
    assert_eq!(edit(&mut u, &modify), Ok(()));
    assert_eq!(u.identities.get("github"), Some(&"me2".to_string()));
    let missing = EditOpts::Identities(IdentitiesOpts::Modify { name: "mastodon".to_string(), id: "x".to_string() });
    assert_eq!(edit(&mut u, &missing), Err(MeError::IdentityMissing));
    let remove = EditOpts::Identities(IdentitiesOpts::Remove { name: "twitter".to_string() });
    assert_eq!(edit(&mut u, &remove), Ok(()));
    assert_eq!(edit(&mut u, &remove), Err(MeError::IdentityMissing));
    assert_eq!(
        view(&u, ViewCmd::Identities),
        vec!["email: me@example.com".to_string(), "github: me2".to_string()]
    );
}
