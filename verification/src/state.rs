//! The record that describes one launchable application, and the state of
//! the launcher: the current query, the rows it shows, and which row is
//! selected.
//!
//! The state is changed through one method per event. Each method reads the
//! query as it stands at that moment: what arrives late for a query that has
//! since changed updates what the launcher knows, and leaves the rows alone
//! unless they are of the same kind.

use vstd::prelude::*;
use crate::fuzzy::FuzzyMatcher;
use crate::process::{
    list_processes, listed, process_records, signal_outcome, terminate_outcome, ProcessInfo,
    TerminateError,
};
use crate::router::{
    application_results, application_rows, calculation_results, calculation_rows, classify,
    is_listing, mode_of, notice_results, process_results, process_rows, rows, vault_results,
    vault_rows, Calculation, ModeView, Notice, NoticeView, QueryMode, ResultView, SearchResult,
};
use crate::scroll::{at_top, revealing, ScrollState, ScrollView};
use crate::vault::{
    entry_views, filter, filtered, flatten_nodes, message_of, report_error, session_valid,
    BackendReport, Session, VaultEntry, VaultEntryView, VaultError, VaultManager, VaultState,
};

verus! {

/// One installed application as the launcher lists it.
#[derive(Clone, Debug)]
pub struct ApplicationInfo {
    /// Display name; the key by which the index is ordered and kept unique.
    pub name: String,
    /// Command line that starts the application.
    pub exec_command: String,
    /// Icon name as the descriptor gives it.
    pub icon_ref: Option<String>,
    /// File that the icon name resolved to, when it did.
    pub icon_resolved_path: Option<String>,
}

/// Mathematical content of an [`ApplicationInfo`].
pub struct ApplicationRecord {
    pub name: Seq<char>,
    pub exec_command: Seq<char>,
    pub icon_ref: Option<Seq<char>>,
    pub icon_resolved_path: Option<Seq<char>>,
}

/// Content of an optional string.
pub open spec fn opt_text(s: Option<String>) -> Option<Seq<char>> {
    match s {
        Some(t) => Some(t@),
        None => None,
    }
}

impl View for ApplicationInfo {
    type V = ApplicationRecord;

    open spec fn view(&self) -> ApplicationRecord {
        ApplicationRecord {
            name: self.name@,
            exec_command: self.exec_command@,
            icon_ref: opt_text(self.icon_ref),
            icon_resolved_path: opt_text(self.icon_resolved_path),
        }
    }
}

/// The contents of a list of records, position by position.
pub open spec fn records_of(apps: Seq<ApplicationInfo>) -> Seq<ApplicationRecord> {
    Seq::new(apps.len(), |i: int| apps[i]@)
}

fn copy_optional(field: &Option<String>) -> (out: Option<String>)
    ensures
        out == *field,
{
    match field {
        Some(t) => Some(t.clone()),
        None => None,
    }
}

impl ApplicationInfo {
    /// A copy with the same contents.
    pub fn duplicate(&self) -> (out: ApplicationInfo)
        ensures
            out@ == self@,
    {
        ApplicationInfo {
            name: self.name.clone(),
            exec_command: self.exec_command.clone(),
            icon_ref: copy_optional(&self.icon_ref),
            icon_resolved_path: copy_optional(&self.icon_resolved_path),
        }
    }
}

/// The display names of `apps`, position by position.
pub open spec fn names_of(apps: Seq<ApplicationInfo>) -> Seq<Seq<char>> {
    Seq::new(apps.len(), |i: int| apps[i].name@)
}

/// The rows `results` are what a search of `names` for `query` shows.
pub open spec fn shows_applications(
    names: Seq<Seq<char>>,
    query: Seq<char>,
    results: Seq<ResultView>,
) -> bool {
    exists|order: Seq<usize>| #[trigger]
        is_listing(names, query, order) && results == application_rows(order)
}

/// What the launcher holds.
pub struct LauncherView {
    /// The application index.
    pub applications: Seq<ApplicationRecord>,
    /// The query as typed.
    pub query: Seq<char>,
    /// The rows on show.
    pub results: Seq<ResultView>,
    /// Position of the selected row; zero when there are no rows.
    pub selected: nat,
    /// Scroll position of the rows.
    pub scroll: ScrollView,
    /// The vault session.
    pub vault: VaultState,
    /// The vault entries in memory, while the vault is unlocked and they were fetched.
    pub vault_entries: Option<Seq<VaultEntryView>>,
}

/// What pressing the enter key asks the caller to do.
#[derive(Clone, Debug, PartialEq, Eq)]
pub enum Activation {
    /// Nothing.
    Nothing,
    /// Start the application at this position of the index.
    Launch(usize),
    /// Put this text on the clipboard.
    Copy(String),
    /// Send a termination signal to this process.
    Terminate(u32),
    /// Try to unlock the vault with this secret.
    Unlock(String),
}

/// Mathematical content of an [`Activation`].
pub enum ActivationView {
    Nothing,
    Launch(usize),
    Copy(Seq<char>),
    Terminate(u32),
    Unlock(Seq<char>),
}

impl View for Activation {
    type V = ActivationView;

    open spec fn view(&self) -> ActivationView {
        match *self {
            Activation::Nothing => ActivationView::Nothing,
            Activation::Launch(at) => ActivationView::Launch(at),
            Activation::Copy(text) => ActivationView::Copy(text@),
            Activation::Terminate(pid) => ActivationView::Terminate(pid),
            Activation::Unlock(secret) => ActivationView::Unlock(secret@),
        }
    }
}

/// What activating a row does: an application is started, the value of a
/// calculation or the password of a credential is copied, a process is
/// terminated, and a notice does nothing.
pub open spec fn activation_of(row: ResultView) -> ActivationView {
    match row {
        ResultView::Application(at) => ActivationView::Launch(at),
        ResultView::Calculation(value) => ActivationView::Copy(value),
        ResultView::Process(process) => ActivationView::Terminate(process.pid),
        ResultView::VaultEntry(entry) => ActivationView::Copy(entry.password),
        ResultView::Notice(_) => ActivationView::Nothing,
    }
}

/// What the vault has to show for the current query.
#[derive(Clone, Copy, Debug, PartialEq, Eq)]
pub enum VaultStep {
    /// The query is not for the vault; nothing was done.
    NotAsked,
    /// The matching entries are on show.
    Shown,
    /// The vault is unlocked, but its entries have to be fetched first.
    FetchEntries,
    /// The vault is locked; it takes a submit to unlock it.
    Locked,
}

/// The selection after moving one row down: it stops at the last row.
pub open spec fn next_selection(selected: nat, count: nat) -> nat {
    if selected + 1 < count {
        selected + 1
    } else {
        selected
    }
}

/// The selection after moving one row up: it stops at the first row.
pub open spec fn previous_selection(selected: nat) -> nat {
    if selected > 0 {
        (selected - 1) as nat
    } else {
        0
    }
}

/// The rows on show, with the selection and the scroll position that go
/// with them.
struct Rows {
    results: Vec<SearchResult>,
    selected: usize,
    scroll: ScrollState,
}

impl Rows {
    /// The selected row is one of the rows, or there are no rows and the
    /// selection is at zero; and the scroll state counts exactly the rows.
    #[verifier::type_invariant]
    spec fn selection_in_range(self) -> bool {
        &&& self.selected < self.results.len() || (self.selected == 0 && self.results.len() == 0)
        &&& self.scroll@.item_count == self.results.len()
    }

    /// No rows, in a list whose items are `item_height` pixels high.
    fn none(item_height: u32) -> (rows: Rows)
        ensures
            rows.results@.len() == 0,
            rows.selected == 0,
            rows.scroll@ == at_top(0, item_height),
    {
        Rows { results: Vec::new(), selected: 0, scroll: ScrollState::new(item_height) }
    }
}

/// State of the launcher.
pub struct LauncherState {
    applications: Vec<ApplicationInfo>,
    query: String,
    rows: Rows,
    vault: VaultManager,
    vault_entries: Option<Vec<VaultEntry>>,
}

impl View for LauncherState {
    type V = LauncherView;

    closed spec fn view(&self) -> LauncherView {
        LauncherView {
            applications: records_of(self.applications@),
            query: self.query@,
            results: rows(self.rows.results@),
            selected: self.rows.selected as nat,
            scroll: self.rows.scroll@,
            vault: self.vault@,
            vault_entries: match self.vault_entries {
                Some(entries) => Some(entry_views(entries@)),
                None => None,
            },
        }
    }
}

impl LauncherState {
    /// A launcher over `applications` with an empty query: it shows the
    /// head of the index, with the first row selected and the vault locked.
    pub fn new(applications: Vec<ApplicationInfo>, item_height: u32) -> (state: Self)
        ensures
            state@.applications == records_of(applications@),
            state@.query == Seq::<char>::empty(),
            shows_applications(names_of(applications@), state@.query, state@.results),
            state@.selected == 0,
            state@.scroll == at_top(state@.results.len(), item_height),
            state@.vault == (VaultState { session: None, unlock_pending: false }),
            state@.vault_entries is None,
    {
        let mut matcher = FuzzyMatcher::new();
        let query = String::new();
        let order = matcher.search(query.as_str(), applications.as_slice());
        let results = application_results(&order);
        let mut scroll = ScrollState::new(item_height);
        scroll.update_item_count(results.len());
        proof {
            assert(is_listing(names_of(applications@), query@, order@));
        }
        LauncherState {
            applications,
            query,
            rows: Rows { results, selected: 0, scroll },
            vault: VaultManager::new(),
            vault_entries: None,
        }
    }

    /// The query as it stands.
    pub fn query(&self) -> (query: &str)
        ensures
            query@ == self@.query,
    {
        self.query.as_str()
    }

    /// The rows on show.
    pub fn results(&self) -> (results: &Vec<SearchResult>)
        ensures
            rows(results@) == self@.results,
    {
        &self.rows.results
    }

    /// Position of the selected row. It always is the position of a row
    /// when there are rows, and zero when there are none; and the scroll
    /// state always counts exactly the rows.
    pub fn selected(&self) -> (selected: usize)
        ensures
            selected == self@.selected,
            selected < self@.results.len() || (selected == 0 && self@.results.len() == 0),
            self@.scroll.item_count == self@.results.len(),
    {
        proof {
            use_type_invariant(&self.rows);
        }
        self.rows.selected
    }

    /// The application index.
    pub fn applications(&self) -> (applications: &Vec<ApplicationInfo>)
        ensures
            records_of(applications@) == self@.applications,
    {
        &self.applications
    }

    /// The scroll state of the rows.
    pub fn scroll(&self) -> (scroll: &ScrollState)
        ensures
            scroll@ == self@.scroll,
    {
        &self.rows.scroll
    }

    /// The vault session as it stands, for whoever keeps it in storage.
    pub fn session(&self) -> (session: Option<Session>)
        ensures
            session == self@.vault.session,
    {
        self.vault.session()
    }

    /// Takes up a session record found in storage. It is checked when the
    /// vault is next used.
    pub fn restore_session(&mut self, session: Option<Session>)
        ensures
            final(self)@ == (LauncherView {
                vault: VaultState { session, unlock_pending: old(self)@.vault.unlock_pending },
                ..old(self)@
            }),
    {
        let pending = self.vault.unlock_pending();
        let mut vault = VaultManager::with_session(session);
        if pending {
            vault.begin_unlock();
        }
        self.vault = vault;
    }

    fn replace_results(&mut self, results: Vec<SearchResult>)
        ensures
            final(self)@ == (LauncherView {
                results: rows(results@),
                selected: 0,
                scroll: at_top(results.len() as nat, old(self)@.scroll.item_height),
                ..old(self)@
            }),
    {
        let mut scroll = ScrollState::new(self.rows.scroll.item_height());
        scroll.update_item_count(results.len());
        self.rows = Rows { results, selected: 0, scroll };
    }

    /// Takes a new query. The rows are thrown away and made again, the
    /// first row is selected and the list is scrolled to its top.
    ///
    /// A search of the applications shows its rows at once. The other modes
    /// start with no rows: what they show needs a process snapshot, the
    /// calculator or the vault, and comes with the method of that name. The
    /// mode is handed back so that the caller knows which one to call.
    pub fn set_query(&mut self, query: &str) -> (mode: QueryMode)
        ensures
            mode@ == mode_of(query@),
            final(self)@.query == query@,
            final(self)@.selected == 0,
            final(self)@.scroll == at_top(
                final(self)@.results.len(),
                old(self)@.scroll.item_height,
            ),
            final(self)@.applications == old(self)@.applications,
            final(self)@.vault == old(self)@.vault,
            final(self)@.vault_entries == old(self)@.vault_entries,
            mode@ is Applications ==> shows_applications(
                names_of_records(old(self)@.applications),
                query@,
                final(self)@.results,
            ),
            !(mode@ is Applications) ==> final(self)@.results.len() == 0,
    {
        let mode = classify(query);
        let results = match mode {
            QueryMode::Applications => {
                let mut matcher = FuzzyMatcher::new();
                let order = matcher.search(query, self.applications.as_slice());
                proof {
                    assert(names_of(self.applications@) =~= names_of_records(
                        records_of(self.applications@),
                    ));
                    assert(is_listing(names_of(self.applications@), query@, order@));
                }
                application_results(&order)
            },
            _ => Vec::new(),
        };
        self.query = query.to_owned();
        self.replace_results(results);
        mode
    }

    /// Shows a snapshot of the processes, if the query lists processes:
    /// all of them, or those that the fragment of the query selects. For
    /// any other query nothing changes.
    pub fn show_processes(&mut self, snapshot: &Vec<ProcessInfo>)
        ensures
            match mode_of(old(self)@.query) {
                ModeView::Process(fragment) => final(self)@ == (LauncherView {
                    results: process_rows(listed(process_records(snapshot@), fragment)),
                    selected: 0,
                    scroll: at_top(
                        process_rows(listed(process_records(snapshot@), fragment)).len(),
                        old(self)@.scroll.item_height,
                    ),
                    ..old(self)@
                }),
                _ => final(self)@ == old(self)@,
            },
    {
        match classify(self.query.as_str()) {
            QueryMode::Process(fragment) => {
                let shown = match &fragment {
                    Some(text) => list_processes(snapshot, Some(text.as_str())),
                    None => list_processes(snapshot, None),
                };
                self.replace_results(process_results(&shown));
            },
            _ => {},
        }
    }

    /// Shows what the calculator said, if the query is a calculation. For
    /// any other query nothing changes.
    pub fn show_calculation(&mut self, calculation: Calculation)
        ensures
            match mode_of(old(self)@.query) {
                ModeView::Calculator => final(self)@ == (LauncherView {
                    results: calculation_rows(calculation),
                    selected: 0,
                    scroll: at_top(
                        calculation_rows(calculation).len(),
                        old(self)@.scroll.item_height,
                    ),
                    ..old(self)@
                }),
                _ => final(self)@ == old(self)@,
            },
    {
        match classify(self.query.as_str()) {
            QueryMode::Calculator => {
                self.replace_results(calculation_results(calculation));
            },
            _ => {},
        }
    }

    /// Shows what the vault has for the query, if the query is for the vault.
    ///
    /// With a valid session and the entries in memory, the entries that
    /// match are shown. With a valid session and no entries in memory, a
    /// notice is shown and the caller is told to fetch them. Without a
    /// valid session there are no rows, the session and the entries in
    /// memory are dropped, and the caller is told that the vault is locked.
    pub fn show_vault(&mut self, now: u64, backend_alive: bool) -> (step: VaultStep)
        ensures
            match mode_of(old(self)@.query) {
                ModeView::Vault(fragment) => {
                    if !session_valid(old(self)@.vault.session, now, backend_alive) {
                        &&& step == VaultStep::Locked
                        &&& final(self)@ == (LauncherView {
                            results: Seq::empty(),
                            selected: 0,
                            scroll: at_top(0, old(self)@.scroll.item_height),
                            vault: VaultState { session: None, ..old(self)@.vault },
                            vault_entries: None,
                            ..old(self)@
                        })
                    } else if old(self)@.vault_entries is Some {
                        let shown = vault_rows(filtered(old(self)@.vault_entries->0, fragment));
                        &&& step == VaultStep::Shown
                        &&& final(self)@ == (LauncherView {
                            results: shown,
                            selected: 0,
                            scroll: at_top(shown.len(), old(self)@.scroll.item_height),
                            ..old(self)@
                        })
                    } else {
                        &&& step == VaultStep::FetchEntries
                        &&& final(self)@ == (LauncherView {
                            results: seq![ResultView::Notice(NoticeView::VaultLoading)],
                            selected: 0,
                            scroll: at_top(1, old(self)@.scroll.item_height),
                            ..old(self)@
                        })
                    }
                },
                _ => step == VaultStep::NotAsked && final(self)@ == old(self)@,
            },
    {
        match classify(self.query.as_str()) {
            QueryMode::Vault(fragment) => {
                let mut vault = self.vault;
                let unlocked = vault.is_unlocked(now, backend_alive);
                self.vault = vault;
                if !unlocked {
                    self.vault_entries = None;
                    self.replace_results(Vec::new());
                    assert(self@.results =~= Seq::<ResultView>::empty());
                    return VaultStep::Locked;
                }
                let shown = match &self.vault_entries {
                    Some(entries) => Some(filter(entries, fragment.as_str())),
                    None => None,
                };
                match shown {
                    Some(entries) => {
                        self.replace_results(vault_results(&entries));
                        VaultStep::Shown
                    },
                    None => {
                        self.replace_results(notice_results(Notice::VaultLoading));
                        VaultStep::FetchEntries
                    },
                }
            },
            _ => VaultStep::NotAsked,
        }
    }

    /// Moves the selection one row down and scrolls so that it shows, with
    /// room for `visible_items` rows. On the last row nothing moves.
    pub fn select_next(&mut self, visible_items: usize)
        ensures
            final(self)@ == (LauncherView {
                selected: next_selection(old(self)@.selected, old(self)@.results.len()),
                scroll: revealing(
                    old(self)@.scroll,
                    next_selection(old(self)@.selected, old(self)@.results.len()),
                    visible_items as nat,
                ),
                ..old(self)@
            }),
            old(self)@.results.len() == 0 ==> final(self)@ == old(self)@,
    {
        let mut taken = Rows::none(self.rows.scroll.item_height());
        proof {
            use_type_invariant(&self.rows);
            use_type_invariant(&taken);
        }
        std::mem::swap(&mut taken, &mut self.rows);
        let Rows { results, selected, mut scroll } = taken;
        let next: usize = if selected < results.len() && selected + 1 < results.len() {
            selected + 1
        } else {
            selected
        };
        scroll.scroll_to_reveal_item(next, visible_items);
        self.rows = Rows { results, selected: next, scroll };
    }

    /// Moves the selection one row up and scrolls so that it shows, with
    /// room for `visible_items` rows. On the first row nothing moves.
    pub fn select_previous(&mut self, visible_items: usize)
        ensures
            final(self)@ == (LauncherView {
                selected: previous_selection(old(self)@.selected),
                scroll: revealing(
                    old(self)@.scroll,
                    previous_selection(old(self)@.selected),
                    visible_items as nat,
                ),
                ..old(self)@
            }),
            old(self)@.results.len() == 0 ==> final(self)@ == old(self)@,
    {
        let mut taken = Rows::none(self.rows.scroll.item_height());
        proof {
            use_type_invariant(&self.rows);
            use_type_invariant(&taken);
        }
        std::mem::swap(&mut taken, &mut self.rows);
        let Rows { results, selected, mut scroll } = taken;
        let previous: usize = if selected > 0 {
            (selected - 1) as usize
        } else {
            0
        };
        scroll.scroll_to_reveal_item(previous, visible_items);
        self.rows = Rows { results, selected: previous, scroll };
    }

    /// What the selected row does when it is activated; nothing when there
    /// are no rows.
    pub fn activate(&self) -> (activation: Activation)
        ensures
            activation@ == row_activation(self@),
    {
        proof {
            use_type_invariant(&self.rows);
        }
        if self.rows.results.len() == 0 {
            return Activation::Nothing;
        }
        match &self.rows.results[self.rows.selected] {
            SearchResult::Application(at) => Activation::Launch(*at),
            SearchResult::Calculation(value) => Activation::Copy(value.clone()),
            SearchResult::Process(process) => Activation::Terminate(process.pid),
            SearchResult::VaultEntry(entry) => Activation::Copy(entry.password.clone()),
            SearchResult::Notice(_) => Activation::Nothing,
        }
    }

    /// Handles the enter key.
    ///
    /// A query for the vault, met while the vault is locked, starts an
    /// unlock attempt with what follows the prefix as the secret: a notice
    /// is shown, and the caller is told to unlock. While an attempt is
    /// already under way such a submit does nothing at all. In every other
    /// case the selected row is activated and nothing changes.
    pub fn submit(&mut self, now: u64, backend_alive: bool) -> (activation: Activation)
        ensures
            match mode_of(old(self)@.query) {
                ModeView::Vault(secret) => {
                    if old(self)@.vault.unlock_pending {
                        activation@ == ActivationView::Nothing && final(self)@ == old(self)@
                    } else if !session_valid(old(self)@.vault.session, now, backend_alive) {
                        &&& activation@ == ActivationView::Unlock(secret)
                        &&& final(self)@ == (LauncherView {
                            results: seq![ResultView::Notice(NoticeView::VaultUnlocking)],
                            selected: 0,
                            scroll: at_top(1, old(self)@.scroll.item_height),
                            vault: VaultState { session: None, unlock_pending: true },
                            vault_entries: None,
                            ..old(self)@
                        })
                    } else {
                        activation@ == row_activation(old(self)@) && final(self)@ == old(self)@
                    }
                },
                _ => activation@ == row_activation(old(self)@) && final(self)@ == old(self)@,
            },
    {
        match classify(self.query.as_str()) {
            QueryMode::Vault(secret) => {
                if self.vault.unlock_pending() {
                    return Activation::Nothing;
                }
                let mut vault = self.vault;
                if !vault.is_unlocked(now, backend_alive) {
                    let accepted = vault.begin_unlock();
                    self.vault = vault;
                    self.vault_entries = None;
                    self.replace_results(notice_results(Notice::VaultUnlocking));
                    return Activation::Unlock(secret);
                }
                self.activate()
            },
            _ => self.activate(),
        }
    }

    /// Takes the answer of the backend to an unlock attempt.
    ///
    /// Items start a session at `now` and are kept in memory as entries.
    /// Any other answer leaves session and entries as they were. Either way
    /// the attempt is over. The rows change only if the query, as it stands
    /// now, is for the vault: then they show the matching entries, or a
    /// notice with the error.
    pub fn unlock_finished(&mut self, report: BackendReport, now: u64)
        ensures
            ({
                let before = old(self)@;
                let after = match report {
                    BackendReport::Opened { handle, nodes } => LauncherView {
                        vault: VaultState {
                            session: Some(Session { unlocked_at: now, backend_handle: handle }),
                            unlock_pending: false,
                        },
                        vault_entries: Some(flatten_nodes(nodes@)),
                        ..before
                    },
                    _ => LauncherView {
                        vault: VaultState { unlock_pending: false, ..before.vault },
                        ..before
                    },
                };
                final(self)@ == match mode_of(before.query) {
                    ModeView::Vault(fragment) => {
                        let shown = vault_answer(report, fragment);
                        LauncherView {
                            results: shown,
                            selected: 0,
                            scroll: at_top(shown.len(), old(self)@.scroll.item_height),
                            ..after
                        }
                    },
                    _ => after,
                }
            }),
    {
        let mut vault = self.vault;
        let outcome = vault.finish_unlock(report, now);
        self.vault = vault;
        self.take_vault_answer(outcome);
    }

    /// Takes the answer of the backend to a request to fetch the entries
    /// again under the session at hand.
    ///
    /// If the session is no longer valid at `now`, it is dropped together
    /// with the entries in memory, and the answer counts as `Locked`.
    /// Otherwise items replace the entries in memory, and any other answer
    /// leaves them as they were. The rows change only if the query, as it
    /// stands now, is for the vault: then they show the matching entries,
    /// or a notice with the error.
    pub fn entries_reloaded(&mut self, report: BackendReport, now: u64, backend_alive: bool)
        ensures
            ({
                let before = old(self)@;
                let valid = session_valid(before.vault.session, now, backend_alive);
                let after = if !valid {
                    LauncherView {
                        vault: VaultState { session: None, ..before.vault },
                        vault_entries: None,
                        ..before
                    }
                } else {
                    match report {
                        BackendReport::Opened { handle, nodes } => LauncherView {
                            vault_entries: Some(flatten_nodes(nodes@)),
                            ..before
                        },
                        _ => before,
                    }
                };
                final(self)@ == match mode_of(before.query) {
                    ModeView::Vault(fragment) => {
                        let shown = if valid {
                            vault_answer(report, fragment)
                        } else {
                            seq![ResultView::Notice(NoticeView::VaultError(
                                message_of(VaultError::Locked),
                            ))]
                        };
                        LauncherView {
                            results: shown,
                            selected: 0,
                            scroll: at_top(shown.len(), old(self)@.scroll.item_height),
                            ..after
                        }
                    },
                    _ => after,
                }
            }),
    {
        let mut vault = self.vault;
        let outcome = vault.load_entries_from_existing_session(report, now, backend_alive);
        self.vault = vault;
        if !vault.session().is_some() {
            self.vault_entries = None;
        }
        self.take_vault_answer(outcome);
    }

    /// Takes a new application index, which replaces the old one whole. The
    /// rows change only if the query, as it stands now, searches the
    /// applications: then they are made again from the new index.
    pub fn applications_scanned(&mut self, applications: Vec<ApplicationInfo>)
        ensures
            final(self)@.applications == records_of(applications@),
            final(self)@.query == old(self)@.query,
            final(self)@.vault == old(self)@.vault,
            final(self)@.vault_entries == old(self)@.vault_entries,
            mode_of(old(self)@.query) is Applications ==> {
                &&& shows_applications(
                    names_of(applications@),
                    old(self)@.query,
                    final(self)@.results,
                )
                &&& final(self)@.selected == 0
                &&& final(self)@.scroll == at_top(
                final(self)@.results.len(),
                old(self)@.scroll.item_height,
            )
            },
            !(mode_of(old(self)@.query) is Applications) ==> {
                &&& final(self)@.results == old(self)@.results
                &&& final(self)@.selected == old(self)@.selected
                &&& final(self)@.scroll == old(self)@.scroll
            },
    {
        self.applications = applications;
        match classify(self.query.as_str()) {
            QueryMode::Applications => {
                let mut matcher = FuzzyMatcher::new();
                let order = matcher.search(self.query.as_str(), self.applications.as_slice());
                proof {
                    assert(is_listing(names_of(self.applications@), self.query@, order@));
                }
                self.replace_results(application_results(&order));
            },
            _ => {},
        }
    }

    /// Takes the outcome of a request to terminate a process, given as the
    /// error number of the signal call, together with a snapshot taken
    /// after it. After a success the snapshot is shown as by
    /// `show_processes`, so that the process is gone from the rows. A
    /// failure is handed back and changes nothing.
    pub fn process_terminated(&mut self, errno: i32, snapshot: &Vec<ProcessInfo>) -> (outcome:
        Result<(), TerminateError>)
        ensures
            outcome == signal_outcome(errno),
            outcome is Err ==> final(self)@ == old(self)@,
            outcome is Ok ==> match mode_of(old(self)@.query) {
                ModeView::Process(fragment) => final(self)@ == (LauncherView {
                    results: process_rows(listed(process_records(snapshot@), fragment)),
                    selected: 0,
                    scroll: at_top(
                        process_rows(listed(process_records(snapshot@), fragment)).len(),
                        old(self)@.scroll.item_height,
                    ),
                    ..old(self)@
                }),
                _ => final(self)@ == old(self)@,
            },
    {
        let outcome = terminate_outcome(errno);
        if outcome.is_ok() {
            self.show_processes(snapshot);
        }
        outcome
    }

    fn take_vault_answer(&mut self, outcome: Result<Vec<VaultEntry>, VaultError>)
        ensures
            ({
                let before = old(self)@;
                let after = match outcome {
                    Ok(entries) => LauncherView {
                        vault_entries: Some(entry_views(entries@)),
                        ..before
                    },
                    Err(_) => before,
                };
                final(self)@ == match mode_of(before.query) {
                    ModeView::Vault(fragment) => {
                        let shown = match outcome {
                            Ok(entries) => vault_rows(filtered(entry_views(entries@), fragment)),
                            Err(error) => seq![
                                ResultView::Notice(NoticeView::VaultError(message_of(error))),
                            ],
                        };
                        LauncherView {
                            results: shown,
                            selected: 0,
                            scroll: at_top(shown.len(), old(self)@.scroll.item_height),
                            ..after
                        }
                    },
                    _ => after,
                }
            }),
    {
        let mode = classify(self.query.as_str());
        match outcome {
            Ok(entries) => {
                match mode {
                    QueryMode::Vault(fragment) => {
                        let shown = filter(&entries, fragment.as_str());
                        self.vault_entries = Some(entries);
                        self.replace_results(vault_results(&shown));
                    },
                    _ => {
                        self.vault_entries = Some(entries);
                    },
                }
            },
            Err(error) => {
                match mode {
                    QueryMode::Vault(_) => {
                        self.replace_results(
                            notice_results(Notice::VaultError(error.message())),
                        );
                    },
                    _ => {},
                }
            },
        }
    }
}

/// What activating the selected row of `state` does.
pub open spec fn row_activation(state: LauncherView) -> ActivationView {
    if state.results.len() == 0 {
        ActivationView::Nothing
    } else {
        activation_of(state.results[state.selected as int])
    }
}

/// The rows that show the answer of the backend to a query for the vault
/// with `fragment`: the matching entries among the items it handed over, or
/// a notice with the error that its answer stands for.
pub open spec fn vault_answer(report: BackendReport, fragment: Seq<char>) -> Seq<ResultView> {
    match report {
        BackendReport::Opened { handle, nodes } => vault_rows(
            filtered(flatten_nodes(nodes@), fragment),
        ),
        _ => seq![
            ResultView::Notice(NoticeView::VaultError(message_of(report_error(report)->0))),
        ],
    }
}

/// The display names of a list of records, position by position.
pub open spec fn names_of_records(records: Seq<ApplicationRecord>) -> Seq<Seq<char>> {
    Seq::new(records.len(), |i: int| records[i].name)
}

} // verus!
