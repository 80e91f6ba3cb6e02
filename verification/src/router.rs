//! The query router: which mode a query belongs to, and the rows that each
//! mode shows.
//!
//! The modes are tried in a fixed order. A query that begins with `pass` and
//! goes on with something is for the vault. Failing that, a query that
//! begins with `ps` lists processes. Failing that, a query whose first
//! visible character is `=` is a calculation. Everything else searches the
//! applications.

use vstd::prelude::*;
use vstd::string::StrSliceExecFns;
use crate::fuzzy::{identity_order, is_ranking};
use crate::process::{process_records, ProcessInfo, ProcessRecord};
use crate::text::{chars_of, has_prefix, starts_with, trim, trim_bounds, trimmed};
use crate::vault::{entry_views, VaultEntry, VaultEntryView};

verus! {

/// The most application rows that one query shows.
pub const MAX_RESULTS: usize = 50;

/// What a query asks for.
#[derive(Clone, Debug, PartialEq, Eq)]
pub enum QueryMode {
    /// The vault, with what follows the prefix: a fragment to look for, or
    /// the secret to unlock with.
    Vault(String),
    /// The process list, with the fragment to filter by if there is one.
    Process(Option<String>),
    /// A calculation.
    Calculator,
    /// A search of the applications.
    Applications,
}

/// Mathematical content of a [`QueryMode`].
pub enum ModeView {
    Vault(Seq<char>),
    Process(Option<Seq<char>>),
    Calculator,
    Applications,
}

impl View for QueryMode {
    type V = ModeView;

    open spec fn view(&self) -> ModeView {
        match *self {
            QueryMode::Vault(rest) => ModeView::Vault(rest@),
            QueryMode::Process(Some(fragment)) => ModeView::Process(Some(fragment@)),
            QueryMode::Process(None) => ModeView::Process(None),
            QueryMode::Calculator => ModeView::Calculator,
            QueryMode::Applications => ModeView::Applications,
        }
    }
}

/// The prefix that sends a query to the vault.
pub open spec fn vault_prefix() -> Seq<char> {
    seq!['p', 'a', 's', 's']
}

/// The prefix that sends a query to the process list.
pub open spec fn process_prefix() -> Seq<char> {
    seq!['p', 's']
}

/// What follows the first `skip` characters of a query, without the white
/// space around it.
pub open spec fn remainder(query: Seq<char>, skip: nat) -> Seq<char> {
    trimmed(query.skip(skip as int))
}

/// The mode of a query.
pub open spec fn mode_of(query: Seq<char>) -> ModeView {
    if starts_with(query, vault_prefix()) && remainder(query, 4).len() > 0 {
        ModeView::Vault(remainder(query, 4))
    } else if starts_with(query, process_prefix()) {
        if remainder(query, 2).len() > 0 {
            ModeView::Process(Some(remainder(query, 2)))
        } else {
            ModeView::Process(None)
        }
    } else if starts_with(trimmed(query), seq!['=']) {
        ModeView::Calculator
    } else {
        ModeView::Applications
    }
}

/// A query that begins with the vault prefix and goes on with something is
/// for the vault, whatever else it holds: signs of arithmetic in it change
/// nothing.
pub proof fn lemma_vault_prefix_wins(query: Seq<char>)
    requires
        starts_with(query, vault_prefix()),
        remainder(query, 4).len() > 0,
    ensures
        mode_of(query) == ModeView::Vault(remainder(query, 4)),
{
}

/// A query that begins with the process prefix lists processes, whatever
/// else it holds: it is never taken for a calculation or a search.
pub proof fn lemma_process_prefix_wins(query: Seq<char>)
    requires
        starts_with(query, process_prefix()),
    ensures
        mode_of(query) is Process,
{
    if starts_with(query, vault_prefix()) {
        assert(query.subrange(0, 4)[1] == 'a');
        assert(query.subrange(0, 2)[1] == 's');
    }
}

/// Every query has exactly one mode, and a calculation or a search is what
/// a query is only when neither prefix claims it.
pub proof fn lemma_modes_by_precedence(query: Seq<char>)
    ensures
        mode_of(query) is Calculator ==> !starts_with(query, process_prefix()) && starts_with(
            trimmed(query),
            seq!['='],
        ),
        mode_of(query) is Applications ==> !starts_with(query, process_prefix()) && !starts_with(
            trimmed(query),
            seq!['='],
        ),
{
}

/// The text of `query` after its first `skip` characters, trimmed.
fn rest_of(query: &str, skip: usize) -> (rest: &str)
    requires
        skip <= query@.len(),
    ensures
        rest@ == remainder(query@, skip as nat),
{
    let n: usize = query.unicode_len();
    let tail = query.substring_char(skip, n);
    assert(tail@ =~= query@.skip(skip as int));
    trim(tail)
}

/// The mode of `query`.
pub fn classify(query: &str) -> (mode: QueryMode)
    ensures
        mode@ == mode_of(query@),
{
    let chars = chars_of(query);
    let mut vault: Vec<char> = Vec::new();
    vault.push('p');
    vault.push('a');
    vault.push('s');
    vault.push('s');
    let mut process: Vec<char> = Vec::new();
    process.push('p');
    process.push('s');
    assert(vault@ =~= vault_prefix());
    assert(process@ =~= process_prefix());
    if has_prefix(&chars, &vault) {
        let rest = rest_of(query, 4);
        if rest.unicode_len() > 0 {
            return QueryMode::Vault(rest.to_owned());
        }
    }
    if has_prefix(&chars, &process) {
        let rest = rest_of(query, 2);
        if rest.unicode_len() > 0 {
            return QueryMode::Process(Some(rest.to_owned()));
        }
        return QueryMode::Process(None);
    }
    if crate::calculator::is_calculator_query(query) {
        QueryMode::Calculator
    } else {
        QueryMode::Applications
    }
}

/// A row that stands in for results that are not there yet, or never will be.
#[derive(Clone, Debug, PartialEq, Eq)]
pub enum Notice {
    /// The vault is unlocked and its entries are being fetched.
    VaultLoading,
    /// An unlock attempt is under way.
    VaultUnlocking,
    /// The vault could not be unlocked or read; the text says why.
    VaultError(String),
    /// The calculator is still being set up.
    CalculatorStarting,
}

/// One row of the result list.
#[derive(Clone)]
pub enum SearchResult {
    /// An application, by its position in the index.
    Application(usize),
    /// The value of a calculation.
    Calculation(String),
    /// A running process.
    Process(ProcessInfo),
    /// A credential.
    VaultEntry(VaultEntry),
    /// A notice in place of results.
    Notice(Notice),
}

/// Mathematical content of a [`Notice`].
pub enum NoticeView {
    VaultLoading,
    VaultUnlocking,
    VaultError(Seq<char>),
    CalculatorStarting,
}

/// Mathematical content of a [`SearchResult`].
pub enum ResultView {
    Application(usize),
    Calculation(Seq<char>),
    Process(ProcessRecord),
    VaultEntry(VaultEntryView),
    Notice(NoticeView),
}

impl View for Notice {
    type V = NoticeView;

    open spec fn view(&self) -> NoticeView {
        match *self {
            Notice::VaultLoading => NoticeView::VaultLoading,
            Notice::VaultUnlocking => NoticeView::VaultUnlocking,
            Notice::VaultError(words) => NoticeView::VaultError(words@),
            Notice::CalculatorStarting => NoticeView::CalculatorStarting,
        }
    }
}

impl View for SearchResult {
    type V = ResultView;

    open spec fn view(&self) -> ResultView {
        match *self {
            SearchResult::Application(at) => ResultView::Application(at),
            SearchResult::Calculation(value) => ResultView::Calculation(value@),
            SearchResult::Process(process) => ResultView::Process(process@),
            SearchResult::VaultEntry(entry) => ResultView::VaultEntry(entry@),
            SearchResult::Notice(notice) => ResultView::Notice(notice@),
        }
    }
}

/// The contents of a list of rows, position by position.
pub open spec fn rows(results: Seq<SearchResult>) -> Seq<ResultView> {
    Seq::new(results.len(), |i: int| results[i]@)
}

/// What the calculator has to say about the current query.
pub enum Calculation {
    /// The calculator is not ready yet.
    Starting,
    /// The calculator was asked; this is its value, if it gave one.
    Done(Option<String>),
}

/// The rows for a ranking of the applications: one row per position, best
/// first, and no more than the maximum.
pub open spec fn application_rows(order: Seq<usize>) -> Seq<ResultView> {
    Seq::new(
        if order.len() <= MAX_RESULTS {
            order.len()
        } else {
            MAX_RESULTS as nat
        },
        |i: int| ResultView::Application(order[i]),
    )
}

/// The rows for a list of processes: one row each, in their order.
pub open spec fn process_rows(shown: Seq<ProcessRecord>) -> Seq<ResultView> {
    Seq::new(shown.len(), |i: int| ResultView::Process(shown[i]))
}

/// The rows for a list of vault entries: one row each, in their order.
pub open spec fn vault_rows(shown: Seq<VaultEntryView>) -> Seq<ResultView> {
    Seq::new(shown.len(), |i: int| ResultView::VaultEntry(shown[i]))
}

/// The rows for what the calculator said: a notice while it is not ready,
/// one row for a value, and none when it gave no value.
pub open spec fn calculation_rows(calculation: Calculation) -> Seq<ResultView> {
    match calculation {
        Calculation::Starting => seq![ResultView::Notice(NoticeView::CalculatorStarting)],
        Calculation::Done(Some(value)) => seq![ResultView::Calculation(value@)],
        Calculation::Done(None) => Seq::empty(),
    }
}

/// `order` is what a search of `names` for `query` gives: every position in
/// index order for the empty query, and the ranking of the matches otherwise.
pub open spec fn is_listing(names: Seq<Seq<char>>, query: Seq<char>, order: Seq<usize>) -> bool {
    if query.len() == 0 {
        order == identity_order(names.len())
    } else {
        is_ranking(names, query, order)
    }
}

/// The rows for a ranking of the applications.
pub fn application_results(order: &Vec<usize>) -> (results: Vec<SearchResult>)
    ensures
        rows(results@) == application_rows(order@),
        results.len() <= MAX_RESULTS,
{
    let mut results: Vec<SearchResult> = Vec::new();
    let mut i: usize = 0;
    while i < order.len() && i < MAX_RESULTS
        invariant
            i <= order.len(),
            i <= MAX_RESULTS,
            results.len() == i,
            forall|j: int| 0 <= j < i ==> (#[trigger] results@[j])@ == ResultView::Application(
                order@[j],
            ),
        decreases order.len() - i,
    {
        results.push(SearchResult::Application(order[i]));
        i += 1;
    }
    assert(rows(results@) =~= application_rows(order@));
    results
}

/// The rows for a list of processes.
pub fn process_results(shown: &Vec<ProcessInfo>) -> (results: Vec<SearchResult>)
    ensures
        rows(results@) == process_rows(process_records(shown@)),
{
    let mut results: Vec<SearchResult> = Vec::new();
    let mut i: usize = 0;
    while i < shown.len()
        invariant
            i <= shown.len(),
            results.len() == i,
            forall|j: int| 0 <= j < i ==> (#[trigger] results@[j])@ == ResultView::Process(
                shown@[j]@,
            ),
        decreases shown.len() - i,
    {
        results.push(SearchResult::Process(shown[i].duplicate()));
        i += 1;
    }
    assert(rows(results@) =~= process_rows(process_records(shown@)));
    results
}

/// The rows for a list of vault entries.
pub fn vault_results(shown: &Vec<VaultEntry>) -> (results: Vec<SearchResult>)
    ensures
        rows(results@) == vault_rows(entry_views(shown@)),
{
    let mut results: Vec<SearchResult> = Vec::new();
    let mut i: usize = 0;
    while i < shown.len()
        invariant
            i <= shown.len(),
            results.len() == i,
            forall|j: int| 0 <= j < i ==> (#[trigger] results@[j])@ == ResultView::VaultEntry(
                shown@[j]@,
            ),
        decreases shown.len() - i,
    {
        results.push(SearchResult::VaultEntry(shown[i].duplicate()));
        i += 1;
    }
    assert(rows(results@) =~= vault_rows(entry_views(shown@)));
    results
}

/// The rows for what the calculator said.
pub fn calculation_results(calculation: Calculation) -> (results: Vec<SearchResult>)
    ensures
        rows(results@) == calculation_rows(calculation),
        results.len() <= 1,
{
    let mut results: Vec<SearchResult> = Vec::new();
    match calculation {
        Calculation::Starting => {
            results.push(SearchResult::Notice(Notice::CalculatorStarting));
        },
        Calculation::Done(Some(value)) => {
            results.push(SearchResult::Calculation(value));
        },
        Calculation::Done(None) => {},
    }
    assert(rows(results@) =~= calculation_rows(calculation));
    results
}

/// A single notice as a result list.
pub fn notice_results(notice: Notice) -> (results: Vec<SearchResult>)
    ensures
        rows(results@) == seq![ResultView::Notice(notice@)],
        results.len() == 1,
{
    let mut results: Vec<SearchResult> = Vec::new();
    results.push(SearchResult::Notice(notice));
    assert(rows(results@) =~= seq![ResultView::Notice(notice@)]);
    results
}

} // verus!
