//! Credential vault: the item tree that the backend hands over, the entries
//! made from it, and the time-bounded session that says whether the vault
//! counts as unlocked.
//!
//! The manager never touches a clock, a file or the backend itself. Its
//! caller reads those and passes in what it found: the current time in
//! seconds, whether the backend handle of the session still resolves, and the
//! backend's answer to a request.

use vstd::prelude::*;
use crate::text::{
    containing, contains, each_text, has_substring, lemma_picked_is_filter, lowercase,
    lowercase_chars, picked,
};

verus! {

/// How long an unlock stays good, in seconds.
pub const SESSION_DURATION_SECS: u64 = 600;

/// One credential as the launcher shows and copies it.
#[derive(Clone)]
pub struct VaultEntry {
    pub title: String,
    pub username: String,
    pub password: String,
    pub totp: Option<String>,
}

/// Mathematical content of a [`VaultEntry`].
pub struct VaultEntryView {
    pub title: Seq<char>,
    pub username: Seq<char>,
    pub password: Seq<char>,
    pub totp: Option<Seq<char>>,
}

impl View for VaultEntry {
    type V = VaultEntryView;

    open spec fn view(&self) -> VaultEntryView {
        VaultEntryView {
            title: self.title@,
            username: self.username@,
            password: self.password@,
            totp: match self.totp {
                Some(t) => Some(t@),
                None => None,
            },
        }
    }
}

/// Contents of a list of entries, position by position.
pub open spec fn entry_views(entries: Seq<VaultEntry>) -> Seq<VaultEntryView> {
    Seq::new(entries.len(), |i: int| entries[i]@)
}

/// The fields of one stored item, each present or absent as the backend has it.
#[derive(Clone)]
pub struct VaultItem {
    pub title: Option<String>,
    pub username: Option<String>,
    pub password: Option<String>,
    pub otp: Option<String>,
}

/// A node of the backend's item tree: a group of further nodes, or one item.
pub enum VaultNode {
    Group(Vec<VaultNode>),
    Entry(VaultItem),
}

/// The text of an optional field, or `fallback` when the field is absent.
pub open spec fn text_or(field: Option<String>, fallback: Seq<char>) -> Seq<char> {
    match field {
        Some(t) => t@,
        None => fallback,
    }
}

/// The entry made from one stored item: a missing title reads "Untitled",
/// a missing user name or password reads as empty, and the one-time-password
/// field is carried over as it is.
pub open spec fn entry_of(item: VaultItem) -> VaultEntryView {
    VaultEntryView {
        title: text_or(item.title, "Untitled"@),
        username: text_or(item.username, Seq::empty()),
        password: text_or(item.password, Seq::empty()),
        totp: match item.otp {
            Some(t) => Some(t@),
            None => None,
        },
    }
}

/// All entries below `node`, depth first, in the order of the tree.
pub open spec fn flatten(node: VaultNode) -> Seq<VaultEntryView>
    decreases node,
{
    match node {
        VaultNode::Group(children) => flatten_nodes(children@),
        VaultNode::Entry(item) => seq![entry_of(item)],
    }
}

/// All entries below the nodes of `nodes`, one node after the other.
pub open spec fn flatten_nodes(nodes: Seq<VaultNode>) -> Seq<VaultEntryView>
    decreases nodes,
{
    if nodes.len() == 0 {
        Seq::empty()
    } else {
        flatten_nodes(nodes.drop_last()) + flatten(nodes.last())
    }
}

/// An entry matches a fragment when its title or its user name contains the
/// fragment, case ignored.
pub open spec fn entry_matches(entry: VaultEntryView, fragment: Seq<char>) -> bool {
    ||| contains(lowercase(entry.title), lowercase(fragment))
    ||| contains(lowercase(entry.username), lowercase(fragment))
}

/// The test that an entry passes when it matches `fragment`.
pub open spec fn matching(fragment: Seq<char>) -> spec_fn(VaultEntryView) -> bool {
    |entry: VaultEntryView| entry_matches(entry, fragment)
}

/// The entries of `entries` that match `fragment`, in their order; all of
/// them when the fragment is empty.
pub open spec fn filtered(entries: Seq<VaultEntryView>, fragment: Seq<char>) -> Seq<
    VaultEntryView,
> {
    if fragment.len() == 0 {
        entries
    } else {
        entries.filter(matching(fragment))
    }
}

fn copy_optional(field: &Option<String>) -> (out: Option<String>)
    ensures
        out == *field,
{
    match field {
        Some(t) => Some(t.clone()),
        None => None,
    }
}

fn copy_or(field: &Option<String>, fallback: &str) -> (out: String)
    ensures
        out@ == text_or(*field, fallback@),
{
    match field {
        Some(t) => t.clone(),
        None => fallback.to_owned(),
    }
}

impl VaultEntry {
    /// A copy with the same contents.
    pub fn duplicate(&self) -> (out: VaultEntry)
        ensures
            out@ == self@,
    {
        VaultEntry {
            title: self.title.clone(),
            username: self.username.clone(),
            password: self.password.clone(),
            totp: copy_optional(&self.totp),
        }
    }

    /// The entry that stands for one stored item.
    pub fn from_item(item: &VaultItem) -> (out: VaultEntry)
        ensures
            out@ == entry_of(*item),
    {
        proof {
            reveal_strlit("");
            assert(""@ =~= Seq::<char>::empty());
        }
        VaultEntry {
            title: copy_or(&item.title, "Untitled"),
            username: copy_or(&item.username, ""),
            password: copy_or(&item.password, ""),
            totp: copy_optional(&item.otp),
        }
    }
}

/// Appends every entry below `node` to `entries`, depth first.
pub fn traverse_group(node: &VaultNode, entries: &mut Vec<VaultEntry>)
    ensures
        entry_views(final(entries)@) == entry_views(old(entries)@) + flatten(*node),
    decreases node,
{
    match node {
        VaultNode::Group(children) => {
            let mut i: usize = 0;
            while i < children.len()
                invariant
                    i <= children.len(),
                    *node == VaultNode::Group(*children),
                    entry_views(entries@) == entry_views(old(entries)@) + flatten_nodes(
                        children@.take(i as int),
                    ),
                decreases children.len() - i,
            {
                proof {
                    vstd::std_specs::vec::axiom_vec_index_decreases(*children, i as int);
                    assert(decreases_to!(*node => node->Group_0));
                }
                traverse_group(&children[i], entries);
                proof {
                    let upto = children@.take(i + 1);
                    assert(upto.drop_last() =~= children@.take(i as int));
                    assert(upto.last() == children@[i as int]);
                    assert(entry_views(entries@) =~= entry_views(old(entries)@) + flatten_nodes(
                        upto,
                    ));
                }
                i += 1;
            }
            assert(children@.take(children.len() as int) =~= children@);
        },
        VaultNode::Entry(item) => {
            let ghost before = entries@;
            let entry = VaultEntry::from_item(item);
            entries.push(entry);
            assert(entry_views(entries@) =~= entry_views(before) + seq![entry_of(*item)]);
        },
    }
}

/// The entries of a whole item tree, given by the children of its root.
pub fn extract_entries(nodes: &Vec<VaultNode>) -> (entries: Vec<VaultEntry>)
    ensures
        entry_views(entries@) == flatten_nodes(nodes@),
{
    let mut entries: Vec<VaultEntry> = Vec::new();
    let mut i: usize = 0;
    while i < nodes.len()
        invariant
            i <= nodes.len(),
            entry_views(entries@) == flatten_nodes(nodes@.take(i as int)),
        decreases nodes.len() - i,
    {
        traverse_group(&nodes[i], &mut entries);
        proof {
            let upto = nodes@.take(i + 1);
            assert(upto.drop_last() =~= nodes@.take(i as int));
            assert(upto.last() == nodes@[i as int]);
        }
        i += 1;
    }
    assert(nodes@.take(nodes.len() as int) =~= nodes@);
    entries
}

/// For each position that both lists have, whether either flag is set.
pub open spec fn either(first: Seq<bool>, second: Seq<bool>) -> Seq<bool> {
    Seq::new(
        if first.len() <= second.len() {
            first.len()
        } else {
            second.len()
        },
        |i: int| first[i] || second[i],
    )
}

/// The entries whose title or user name holds `needle`, in their order,
/// where `titles` and `usernames` give title and user name of each entry in
/// the form in which they are searched. An entry that lacks either of the
/// two is left out.
pub fn filter_lowered(
    entries: &Vec<VaultEntry>,
    titles: &Vec<Vec<char>>,
    usernames: &Vec<Vec<char>>,
    needle: &Vec<char>,
) -> (out: Vec<VaultEntry>)
    ensures
        entry_views(out@) == picked(
            entry_views(entries@),
            either(
                containing(each_text(titles@), needle@),
                containing(each_text(usernames@), needle@),
            ),
        ),
{
    let ghost keep = either(
        containing(each_text(titles@), needle@),
        containing(each_text(usernames@), needle@),
    );
    let mut out: Vec<VaultEntry> = Vec::new();
    let mut i: usize = 0;
    proof {
        assert(entry_views(entries@.take(0)) =~= Seq::<VaultEntryView>::empty());
        assert(entry_views(out@) =~= picked(entry_views(entries@.take(0)), keep));
    }
    while i < entries.len()
        invariant
            i <= entries.len(),
            keep == either(
                containing(each_text(titles@), needle@),
                containing(each_text(usernames@), needle@),
            ),
            entry_views(out@) == picked(entry_views(entries@.take(i as int)), keep),
        decreases entries.len() - i,
    {
        let ghost before = entry_views(out@);
        let wanted = i < titles.len() && i < usernames.len() && (has_substring(&titles[i], needle)
            || has_substring(&usernames[i], needle));
        if wanted {
            out.push(entries[i].duplicate());
        }
        proof {
            let seen = entry_views(entries@.take(i as int));
            let next = entry_views(entries@.take(i + 1));
            assert(next.drop_last() =~= seen);
            assert(next.last() == entries@[i as int]@);
            if i < titles.len() && i < usernames.len() {
                assert(each_text(titles@)[i as int] == titles@[i as int]@);
                assert(each_text(usernames@)[i as int] == usernames@[i as int]@);
                assert(keep[i as int] == (contains(titles@[i as int]@, needle@) || contains(
                    usernames@[i as int]@,
                    needle@,
                )));
            }
            if wanted {
                assert(entry_views(out@) =~= before.push(entries@[i as int]@));
            }
        }
        i += 1;
    }
    assert(entries@.take(entries.len() as int) =~= entries@);
    out
}

/// The entries that match `fragment`: those whose title or user name
/// contains it, case ignored, in their order. An empty fragment keeps all.
pub fn filter(entries: &Vec<VaultEntry>, fragment: &str) -> (out: Vec<VaultEntry>)
    ensures
        entry_views(out@) == filtered(entry_views(entries@), fragment@),
{
    if fragment.unicode_len() == 0 {
        let mut out: Vec<VaultEntry> = Vec::new();
        let mut i: usize = 0;
        proof {
            assert(entry_views(out@) =~= entry_views(entries@.take(0)));
        }
        while i < entries.len()
            invariant
                i <= entries.len(),
                entry_views(out@) == entry_views(entries@.take(i as int)),
            decreases entries.len() - i,
        {
            let ghost before = entry_views(out@);
            out.push(entries[i].duplicate());
            proof {
                assert(entry_views(out@) =~= before.push(entries@[i as int]@));
                assert(entry_views(entries@.take(i + 1)) =~= entry_views(
                    entries@.take(i as int),
                ).push(entries@[i as int]@));
            }
            i += 1;
        }
        assert(entries@.take(entries.len() as int) =~= entries@);
        return out;
    }
    let needle = lowercase_chars(fragment);
    let mut titles: Vec<Vec<char>> = Vec::new();
    let mut usernames: Vec<Vec<char>> = Vec::new();
    let mut i: usize = 0;
    while i < entries.len()
        invariant
            i <= entries.len(),
            titles.len() == i,
            usernames.len() == i,
            forall|j: int| 0 <= j < i ==> (#[trigger] titles@[j])@ == lowercase(entries@[j].title@),
            forall|j: int|
                0 <= j < i ==> (#[trigger] usernames@[j])@ == lowercase(entries@[j].username@),
        decreases entries.len() - i,
    {
        titles.push(lowercase_chars(entries[i].title.as_str()));
        usernames.push(lowercase_chars(entries[i].username.as_str()));
        i += 1;
    }
    let out = filter_lowered(entries, &titles, &usernames, &needle);
    proof {
        let shown = entry_views(entries@);
        let keep = either(
            containing(each_text(titles@), needle@),
            containing(each_text(usernames@), needle@),
        );
        assert forall|j: int| 0 <= j < shown.len() implies keep[j] == matching(fragment@)(
            shown[j],
        ) by {
            assert(each_text(titles@)[j] == titles@[j]@);
            assert(each_text(usernames@)[j] == usernames@[j]@);
        }
        lemma_picked_is_filter(shown, keep, matching(fragment@));
    }
    out
}

/// Proof that the vault was unlocked: when, and against which backend.
#[derive(Clone, Copy, Debug, PartialEq, Eq)]
pub struct Session {
    /// Seconds since the epoch at which the unlock succeeded.
    pub unlocked_at: u64,
    /// What identifies the backend that was unlocked, if it has an identity.
    pub backend_handle: Option<u32>,
}

/// Why a vault operation did not give entries.
#[derive(Clone, Debug, PartialEq, Eq)]
pub enum VaultError {
    /// The backend cannot be reached, or reports itself locked.
    BackendUnavailable,
    /// There is no valid session: the vault has to be unlocked first.
    Locked,
    /// Another unlock attempt is still under way.
    UnlockPending,
    /// Any other failure, in the backend's words.
    Other(String),
}

/// What the backend answered to a request for its items.
pub enum BackendReport {
    /// The backend could not be contacted.
    Unreachable,
    /// The backend was reached and reports itself locked.
    Locked,
    /// The backend refused for another reason, given in its words.
    Failed(String),
    /// The backend handed over its items.
    Opened { handle: Option<u32>, nodes: Vec<VaultNode> },
}

/// The error that a report stands for, if it is not a success.
pub open spec fn report_error(report: BackendReport) -> Option<VaultError> {
    match report {
        BackendReport::Unreachable => Some(VaultError::BackendUnavailable),
        BackendReport::Locked => Some(VaultError::BackendUnavailable),
        BackendReport::Failed(words) => Some(VaultError::Other(words)),
        BackendReport::Opened { .. } => None,
    }
}

/// A session is valid while less than the session duration has passed since
/// the unlock and the backend it names still resolves.
pub open spec fn session_valid(session: Option<Session>, now: u64, backend_alive: bool) -> bool {
    &&& session is Some
    &&& now - session->0.unlocked_at < SESSION_DURATION_SECS
    &&& backend_alive
}

/// What a [`VaultManager`] holds.
pub struct VaultState {
    /// The session record, if there is one.
    pub session: Option<Session>,
    /// Whether an unlock attempt has been started and not yet finished.
    pub unlock_pending: bool,
}

/// Keeper of the vault session.
#[derive(Clone, Copy)]
pub struct VaultManager {
    session: Option<Session>,
    unlock_pending: bool,
}

impl View for VaultManager {
    type V = VaultState;

    closed spec fn view(&self) -> VaultState {
        VaultState { session: self.session, unlock_pending: self.unlock_pending }
    }
}

/// The text that tells the user about an error. For an unavailable backend
/// it says what to do about it.
pub open spec fn message_of(error: VaultError) -> Seq<char> {
    match error {
        VaultError::BackendUnavailable =>
            "Vault backend is locked or not reachable. Unlock it and try again."@,
        VaultError::Locked => "Vault locked"@,
        VaultError::UnlockPending => "An unlock attempt is already under way."@,
        VaultError::Other(words) => words@,
    }
}

impl VaultError {
    /// Text for the user.
    pub fn message(&self) -> (text: String)
        ensures
            text@ == message_of(*self),
    {
        match self {
            VaultError::BackendUnavailable => {
                "Vault backend is locked or not reachable. Unlock it and try again.".to_owned()
            },
            VaultError::Locked => "Vault locked".to_owned(),
            VaultError::UnlockPending => "An unlock attempt is already under way.".to_owned(),
            VaultError::Other(words) => words.clone(),
        }
    }
}

impl VaultManager {
    /// A manager without a session: the vault is locked.
    pub fn new() -> (manager: Self)
        ensures
            manager@ == (VaultState { session: None, unlock_pending: false }),
    {
        VaultManager { session: None, unlock_pending: false }
    }

    /// A manager that starts from a session record found in storage. The
    /// record is taken as it is and checked when it is first used.
    pub fn with_session(session: Option<Session>) -> (manager: Self)
        ensures
            manager@ == (VaultState { session, unlock_pending: false }),
    {
        VaultManager { session, unlock_pending: false }
    }

    /// The session record as it stands, for whoever keeps it in storage.
    pub fn session(&self) -> (session: Option<Session>)
        ensures
            session == self@.session,
    {
        self.session
    }

    /// Whether an unlock attempt has been started and not yet finished.
    pub fn unlock_pending(&self) -> (pending: bool)
        ensures
            pending == self@.unlock_pending,
    {
        self.unlock_pending
    }

    /// Whether the vault counts as unlocked at time `now`.
    ///
    /// A session that fails the test is dropped on the spot.
    pub fn is_unlocked(&mut self, now: u64, backend_alive: bool) -> (unlocked: bool)
        ensures
            unlocked == session_valid(old(self)@.session, now, backend_alive),
            final(self)@.session == if unlocked {
                old(self)@.session
            } else {
                None
            },
            final(self)@.unlock_pending == old(self)@.unlock_pending,
    {
        let valid = match self.session {
            Some(session) => backend_alive && (now < session.unlocked_at || now
                - session.unlocked_at < SESSION_DURATION_SECS),
            None => false,
        };
        if !valid {
            self.session = None;
        }
        valid
    }

    /// Drops the session.
    pub fn lock(&mut self)
        ensures
            final(self)@.session is None,
            final(self)@.unlock_pending == old(self)@.unlock_pending,
    {
        self.session = None;
    }

    /// Asks to start an unlock attempt. The answer is no while an earlier
    /// attempt has not been finished; nothing changes then.
    pub fn begin_unlock(&mut self) -> (accepted: bool)
        ensures
            accepted == !old(self)@.unlock_pending,
            final(self)@.unlock_pending,
            final(self)@.session == old(self)@.session,
    {
        let accepted = !self.unlock_pending;
        self.unlock_pending = true;
        accepted
    }

    /// Finishes an unlock attempt with what the backend answered.
    ///
    /// Items make a new session that starts at `now`, and come back as
    /// entries. Any other answer is an error and leaves the session alone.
    pub fn finish_unlock(&mut self, report: BackendReport, now: u64) -> (outcome: Result<
        Vec<VaultEntry>,
        VaultError,
    >)
        ensures
            !final(self)@.unlock_pending,
            match report {
                BackendReport::Opened { handle, nodes } => {
                    &&& outcome is Ok
                    &&& entry_views(outcome->Ok_0@) == flatten_nodes(nodes@)
                    &&& final(self)@.session == Some(
                        Session { unlocked_at: now, backend_handle: handle },
                    )
                },
                _ => {
                    &&& outcome == Err::<Vec<VaultEntry>, VaultError>(report_error(report)->0)
                    &&& final(self)@.session == old(self)@.session
                },
            },
    {
        self.unlock_pending = false;
        match report {
            BackendReport::Opened { handle, nodes } => {
                let entries = extract_entries(&nodes);
                self.session = Some(Session { unlocked_at: now, backend_handle: handle });
                Ok(entries)
            },
            BackendReport::Unreachable => Err(VaultError::BackendUnavailable),
            BackendReport::Locked => Err(VaultError::BackendUnavailable),
            BackendReport::Failed(words) => Err(VaultError::Other(words)),
        }
    }

    /// Unlocks the vault in one step, with what the backend answered to the
    /// secret.
    ///
    /// While an attempt that was begun is still pending, the request is
    /// refused and nothing changes. Otherwise items start a session at `now`
    /// and come back as entries, and any other answer is an error that
    /// leaves the session alone.
    pub fn unlock(&mut self, report: BackendReport, now: u64) -> (outcome: Result<
        Vec<VaultEntry>,
        VaultError,
    >)
        ensures
            final(self)@.unlock_pending == old(self)@.unlock_pending,
            old(self)@.unlock_pending ==> {
                &&& outcome == Err::<Vec<VaultEntry>, VaultError>(VaultError::UnlockPending)
                &&& final(self)@.session == old(self)@.session
            },
            !old(self)@.unlock_pending ==> match report {
                BackendReport::Opened { handle, nodes } => {
                    &&& outcome is Ok
                    &&& entry_views(outcome->Ok_0@) == flatten_nodes(nodes@)
                    &&& final(self)@.session == Some(
                        Session { unlocked_at: now, backend_handle: handle },
                    )
                },
                _ => {
                    &&& outcome == Err::<Vec<VaultEntry>, VaultError>(report_error(report)->0)
                    &&& final(self)@.session == old(self)@.session
                },
            },
    {
        if self.unlock_pending {
            return Err(VaultError::UnlockPending);
        }
        self.finish_unlock(report, now)
    }

    /// Fetches the entries again under a session that is still valid.
    ///
    /// Without a valid session the answer is `Locked`, whatever the backend
    /// said, and the stale session is dropped. With one, the session is kept
    /// as it is and the backend's answer decides.
    pub fn load_entries_from_existing_session(
        &mut self,
        report: BackendReport,
        now: u64,
        backend_alive: bool,
    ) -> (outcome: Result<Vec<VaultEntry>, VaultError>)
        ensures
            final(self)@.unlock_pending == old(self)@.unlock_pending,
            !session_valid(old(self)@.session, now, backend_alive) ==> {
                &&& outcome == Err::<Vec<VaultEntry>, VaultError>(VaultError::Locked)
                &&& final(self)@.session is None
            },
            session_valid(old(self)@.session, now, backend_alive) ==> {
                &&& final(self)@.session == old(self)@.session
                &&& match report {
                    BackendReport::Opened { handle, nodes } => {
                        &&& outcome is Ok
                        &&& entry_views(outcome->Ok_0@) == flatten_nodes(nodes@)
                    },
                    _ => outcome == Err::<Vec<VaultEntry>, VaultError>(report_error(report)->0),
                }
            },
    {
        if !self.is_unlocked(now, backend_alive) {
            return Err(VaultError::Locked);
        }
        match report {
            BackendReport::Opened { handle, nodes } => Ok(extract_entries(&nodes)),
            BackendReport::Unreachable => Err(VaultError::BackendUnavailable),
            BackendReport::Locked => Err(VaultError::BackendUnavailable),
            BackendReport::Failed(words) => Err(VaultError::Other(words)),
        }
    }

    /// The entries that match `query`, if the vault is unlocked at `now`.
    ///
    /// Without a valid session the answer is `Locked` and the stale session
    /// is dropped.
    pub fn search(
        &mut self,
        query: &str,
        entries: &Vec<VaultEntry>,
        now: u64,
        backend_alive: bool,
    ) -> (outcome: Result<Vec<VaultEntry>, VaultError>)
        ensures
            final(self)@.unlock_pending == old(self)@.unlock_pending,
            !session_valid(old(self)@.session, now, backend_alive) ==> {
                &&& outcome == Err::<Vec<VaultEntry>, VaultError>(VaultError::Locked)
                &&& final(self)@.session is None
            },
            session_valid(old(self)@.session, now, backend_alive) ==> {
                &&& final(self)@.session == old(self)@.session
                &&& outcome is Ok
                &&& entry_views(outcome->Ok_0@) == filtered(entry_views(entries@), query@)
            },
    {
        if !self.is_unlocked(now, backend_alive) {
            return Err(VaultError::Locked);
        }
        Ok(filter(entries, query))
    }
}

/// Once the session duration has passed since the unlock, no session is
/// valid, whether or not anyone locked the vault and whatever the backend
/// says.
pub proof fn lemma_session_expires(session: Session, now: u64, backend_alive: bool)
    requires
        now >= session.unlocked_at + SESSION_DURATION_SECS,
    ensures
        !session_valid(Some(session), now, backend_alive),
{
}

/// A session whose backend no longer resolves is not valid, however recent
/// the unlock.
pub proof fn lemma_dead_backend_invalidates(session: Option<Session>, now: u64)
    ensures
        !session_valid(session, now, false),
{
}

} // verus!
