//! Viewing and editing the local user's own record.
use crate::crypto::base64_text;
use crate::schema::UserInfo;
use crate::table::has_key;
use vstd::prelude::*;
use vstd::string::StringExecFns;

verus! {

/// What can be asked of the local user's record.
pub enum MeOpts {
    /// View the record, all of it or one part.
    View { cmd: Option<ViewCmd> },
    /// Edit the record.
    Edit(EditOpts),
}

/// One part of the record to view.
#[derive(Clone, Copy, Debug, PartialEq, Eq, Structural)]
pub enum ViewCmd {
    Name,
    Status,
    Pubkey,
    Identities,
}

/// An edit of the record.
pub enum EditOpts {
    /// Set the display name.
    Name { name: String },
    /// Set or clear the status.
    Status(StatusOpts),
    /// Manage the identities.
    Identities(IdentitiesOpts),
}

/// The status to set; none clears it.
pub struct StatusOpts {
    pub status: Option<String>,
    pub clear: bool,
}

/// An edit of the identities.
pub enum IdentitiesOpts {
    /// Add an identity whose label is new.
    Add { name: String, id: String },
    /// Change the value of an identity that exists.
    Modify { name: String, id: String },
    /// Remove an identity that exists.
    Remove { name: String },
}

/// Why an edit was refused.
#[derive(Clone, Copy, Debug, PartialEq, Eq, Structural)]
pub enum MeError {
    /// An identity with that label exists already: modify it instead.
    IdentityExists,
    /// No identity has that label.
    IdentityMissing,
}

/// The text shown for an unset status.
pub open spec fn no_status_text() -> Seq<char> {
    "<no status is set>"@
}

/// A status, or the text shown when none is set.
pub open spec fn status_text(status: Option<String>) -> Seq<char> {
    match status {
        Some(s) => s@,
        None => no_status_text(),
    }
}

/// The lines that list identities, each as `prefix label: value`.
pub open spec fn identity_lines(ls: Seq<(Seq<char>, String)>, prefix: Seq<char>) -> Seq<Seq<char>> {
    ls.map_values(|e: (Seq<char>, String)| prefix + e.0 + ": "@ + e.1@)
}

/// The lines that viewing the whole record shows.
pub open spec fn overview_lines(u: UserInfo) -> Seq<Seq<char>> {
    seq![
        "Name:       "@ + u.name@,
        "Status:     "@ + status_text(u.status),
        "Public key: "@ + base64_text(u.keypair.public_bytes()),
        Seq::<char>::empty(),
        "Identities:"@,
    ] + identity_lines(u.identities.listing(), "  - "@)
}

/// The lines that viewing one part of the record shows.
pub open spec fn part_lines(u: UserInfo, cmd: ViewCmd) -> Seq<Seq<char>> {
    match cmd {
        ViewCmd::Name => seq![u.name@],
        ViewCmd::Status => match u.status {
            Some(s) => seq![s@],
            None => seq!["You haven't set a status!"@],
        },
        ViewCmd::Pubkey => seq![base64_text(u.keypair.public_bytes())],
        ViewCmd::Identities => identity_lines(u.identities.listing(), Seq::empty()),
    }
}

/// The texts of a list of strings.
pub open spec fn string_views(v: Seq<String>) -> Seq<Seq<char>> {
    v.map_values(|s: String| s@)
}

/// Appends a line `prefix label: value` for each identity of `u`.
fn push_identity_lines(out: &mut Vec<String>, u: &UserInfo, prefix: &str)
    requires
        u.identities.wf(),
    ensures
        string_views(final(out)@) == string_views(old(out)@) + identity_lines(
            u.identities.listing(),
            prefix@,
        ),
{
    let ghost start = out@;
    let n = u.identities.len();
    let mut i: usize = 0;
    while i < n
        invariant
            n == u.identities.listing().len(),
            i <= n,
            out@.len() == start.len() + i,
            string_views(out@) == string_views(start) + identity_lines(
                u.identities.listing(),
                prefix@,
            ).subrange(0, i as int),
        decreases n - i,
    {
        let mut line = String::from_str(prefix);
        line.append(u.identities.key_at(i).as_str());
        line.append(": ");
        line.append(u.identities.value_at(i).as_str());
        let ghost before = out@;
        out.push(line);
        proof {
            let ls = u.identities.listing();
            let want = string_views(start) + identity_lines(ls, prefix@).subrange(0, i + 1);
            assert(identity_lines(ls, prefix@)[i as int] == prefix@ + ls[i as int].0 + ": "@
                + ls[i as int].1@);
            assert(string_views(out@).len() == want.len());
            assert forall|k: int| 0 <= k < want.len() implies #[trigger] string_views(out@)[k]
                == want[k] by {
                if k < before.len() {
                    assert(out@[k] == before[k]);
                    assert(string_views(before)[k] == (string_views(start) + identity_lines(
                        ls,
                        prefix@,
                    ).subrange(0, i as int))[k]);
                }
            }
            assert(string_views(out@) =~= want);
        }
        i = i + 1;
    }
    assert(identity_lines(u.identities.listing(), prefix@).subrange(0, n as int)
        =~= identity_lines(u.identities.listing(), prefix@));
}

/// The lines that show the whole record.
pub fn view_all(u: &UserInfo) -> (r: Vec<String>)
    requires
        u.identities.wf(),
    ensures
        string_views(r@) == overview_lines(*u),
{
    let mut out: Vec<String> = Vec::new();
    let mut name = String::from_str("Name:       ");
    name.append(u.name.as_str());
    out.push(name);
    let mut status = String::from_str("Status:     ");
    match &u.status {
        Some(s) => status.append(s.as_str()),
        None => status.append("<no status is set>"),
    }
    out.push(status);
    let mut key = String::from_str("Public key: ");
    key.append(u.keypair.public_text().as_str());
    out.push(key);
    out.push(String::new());
    out.push(String::from_str("Identities:"));
    let ghost head = out@;
    assert(string_views(head) =~= seq![
        "Name:       "@ + u.name@,
        "Status:     "@ + status_text(u.status),
        "Public key: "@ + base64_text(u.keypair.public_bytes()),
        Seq::<char>::empty(),
        "Identities:"@,
    ]);
    push_identity_lines(&mut out, u, "  - ");
    out
}

/// The lines that show one part of the record.
pub fn view(u: &UserInfo, cmd: ViewCmd) -> (r: Vec<String>)
    requires
        u.identities.wf(),
    ensures
        string_views(r@) == part_lines(*u, cmd),
{
    let mut out: Vec<String> = Vec::new();
    match cmd {
        ViewCmd::Name => out.push(u.name.clone()),
        ViewCmd::Status => match &u.status {
            Some(s) => out.push(s.clone()),
            None => out.push(String::from_str("You haven't set a status!")),
        },
        ViewCmd::Pubkey => out.push(u.keypair.public_text()),
        ViewCmd::Identities => {
            push_identity_lines(&mut out, u, "");
            proof {
                reveal_strlit("");
                assert(""@ =~= Seq::<char>::empty());
            }
        },
    }
    assert(string_views(out@) =~= part_lines(*u, cmd)) by {
        reveal_strlit("");
    }
    out
}

/// What an edit does to the record: `prev` before it, `new` after it, `r`
/// its outcome. A refused edit leaves the record as it was.
pub open spec fn edit_outcome(prev: UserInfo, new: UserInfo, opts: EditOpts, r: Result<(), MeError>) -> bool {
    &&& new.identities.wf()
    &&& new.keypair == prev.keypair
    &&& r is Err ==> new.name == prev.name && new.status == prev.status
        && new.identities.listing() == prev.identities.listing()
    &&& opts matches EditOpts::Name { name: n } ==> {
        &&& r is Ok
        &&& new.name@ == n@
        &&& new.status == prev.status
        &&& new.identities.listing() == prev.identities.listing()
    }
    &&& opts matches EditOpts::Status(s) ==> {
        &&& r is Ok
        &&& new.name == prev.name
        &&& new.identities.listing() == prev.identities.listing()
        &&& s.status is None ==> new.status is None
        &&& s.status matches Some(t) ==> (new.status matches Some(v) && v@ == t@)
    }
    &&& opts matches EditOpts::Identities(IdentitiesOpts::Add { name, id }) ==> if has_key(
        prev.identities.listing(),
        name@
    ) {
        r == Err::<(), MeError>(MeError::IdentityExists)
    } else {
        &&& r is Ok
        &&& new.name == prev.name
        &&& new.status == prev.status
        &&& exists|i: int|
            0 <= i <= prev.identities.listing().len() && new.identities.listing()
                == #[trigger] prev.identities.listing().insert(
                i,
                (name@, new.identities.listing()[i].1),
            ) && new.identities.listing()[i].1@ == id@
    }
    &&& opts matches EditOpts::Identities(IdentitiesOpts::Modify { name, id }) ==> if !has_key(
        prev.identities.listing(),
        name@
    ) {
        r == Err::<(), MeError>(MeError::IdentityMissing)
    } else {
        &&& r is Ok
        &&& new.name == prev.name
        &&& new.status == prev.status
        &&& exists|i: int|
            0 <= i < prev.identities.listing().len() && prev.identities.listing()[i].0
                == name@ && new.identities.listing()
                == #[trigger] prev.identities.listing().update(
                i,
                (name@, new.identities.listing()[i].1),
            ) && new.identities.listing()[i].1@ == id@
    }
    &&& opts matches EditOpts::Identities(IdentitiesOpts::Remove { name }) ==> if !has_key(
        prev.identities.listing(),
        name@
    ) {
        r == Err::<(), MeError>(MeError::IdentityMissing)
    } else {
        &&& r is Ok
        &&& new.name == prev.name
        &&& new.status == prev.status
        &&& exists|i: int|
            0 <= i < prev.identities.listing().len() && prev.identities.listing()[i].0
                == name@ && new.identities.listing()
                == #[trigger] prev.identities.listing().remove(i)
    }
}

/// Applies an edit to the record. A refused edit leaves it as it was.
pub fn edit(u: &mut UserInfo, opts: &EditOpts) -> (r: Result<(), MeError>)
    requires
        old(u).identities.wf(),
    ensures
        edit_outcome(*old(u), *final(u), *opts, r),
{
    match opts {
        EditOpts::Name { name } => {
            u.name = name.clone();
            Ok(())
        },
        EditOpts::Status(s) => {
            u.status = match &s.status {
                Some(t) => Some(t.clone()),
                None => None,
            };
            Ok(())
        },
        EditOpts::Identities(IdentitiesOpts::Add { name, id }) => {
            if u.identities.contains_key(name.as_str()) {
                return Err(MeError::IdentityExists);
            }
            let ghost ls = u.identities.listing();
            u.identities.insert(name.clone(), id.clone());
            proof {
                let i = choose|i: int|
                    0 <= i <= ls.len() && #[trigger] u.identities.listing() == ls.insert(
                        i,
                        (name@, *id),
                    );
                assert(u.identities.listing()[i] == (name@, *id));
                assert(u.identities.listing() == ls.insert(i, (name@, u.identities.listing()[i].1)));
            }
            Ok(())
        },
        EditOpts::Identities(IdentitiesOpts::Modify { name, id }) => {
            if !u.identities.contains_key(name.as_str()) {
                return Err(MeError::IdentityMissing);
            }
            let ghost ls = u.identities.listing();
            u.identities.insert(name.clone(), id.clone());
            proof {
                let i = choose|i: int|
                    0 <= i < ls.len() && ls[i].0 == name@ && #[trigger] u.identities.listing()
                        == ls.update(i, (name@, *id));
                assert(u.identities.listing()[i] == (name@, *id));
                assert(u.identities.listing() == ls.update(i, (name@, u.identities.listing()[i].1)));
            }
            Ok(())
        },
        EditOpts::Identities(IdentitiesOpts::Remove { name }) => {
            match u.identities.remove(name.as_str()) {
                Some(_) => Ok(()),
                None => Err(MeError::IdentityMissing),
            }
        },
    }
}

/// Carries out a command on the record: the lines to show for a view, none
/// for an edit (after which the record is to be written back).
pub fn me(u: &mut UserInfo, subcmd: &MeOpts) -> (r: Result<Vec<String>, MeError>)
    requires
        old(u).identities.wf(),
    ensures
        final(u).identities.wf(),
        match subcmd {
            MeOpts::View { cmd } => *final(u) == *old(u) && (r matches Ok(lines) && match cmd {
                Some(c) => string_views(lines@) == part_lines(*old(u), *c),
                None => string_views(lines@) == overview_lines(*old(u)),
            }),
            MeOpts::Edit(opts) => {
                &&& r matches Ok(lines) ==> lines@.len() == 0
                &&& r is Ok ==> edit_outcome(*old(u), *final(u), *opts, Ok(()))
                &&& r matches Err(e) ==> edit_outcome(*old(u), *final(u), *opts, Err(e))
            },
        },
{
    match subcmd {
        MeOpts::View { cmd } => match cmd {
            Some(c) => Ok(view(u, *c)),
            None => Ok(view_all(u)),
        },
        MeOpts::Edit(opts) => match edit(u, opts) {
            Ok(()) => Ok(Vec::new()),
            Err(e) => Err(e),
        },
    }
}

} // verus!
