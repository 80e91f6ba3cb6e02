//! Clipboard history: a bounded list of copied texts, most recent first,
//! kept on disk as one text per line.

use vstd::prelude::*;
use crate::text::{
    chars_of, has_prefix, join_path, joined, lemma_filter_drops, lemma_filter_keeps_all,
    lemma_filter_push, lines, split_lines, starts_with, texts,
};
use vstd::string::StringExecFns;

verus! {

/// The most texts that the history keeps.
pub const MAX_HISTORY: usize = 100;

/// One text that was on the clipboard.
#[derive(Clone, Debug)]
pub struct ClipboardEntry {
    pub content: String,
}

/// The texts of a list of entries, position by position.
pub open spec fn contents(entries: Seq<ClipboardEntry>) -> Seq<Seq<char>> {
    Seq::new(entries.len(), |i: int| entries[i].content@)
}

/// The test that a text passes when it is not `content`.
pub open spec fn other_than(content: Seq<char>) -> spec_fn(Seq<char>) -> bool {
    |text: Seq<char>| text != content
}

/// The history after `content` was copied: `content` in front, then the
/// earlier texts other than `content` in their order, cut to the capacity.
pub open spec fn remembered(history: Seq<Seq<char>>, content: Seq<char>) -> Seq<Seq<char>> {
    let kept = seq![content] + history.filter(other_than(content));
    if kept.len() > MAX_HISTORY {
        kept.take(MAX_HISTORY as int)
    } else {
        kept
    }
}

/// The history as it is written to its file: every text followed by a line feed.
pub open spec fn serialized(history: Seq<Seq<char>>) -> Seq<char>
    decreases history.len(),
{
    if history.len() == 0 {
        Seq::empty()
    } else {
        serialized(history.drop_last()) + history.last() + seq!['\n']
    }
}

/// Where the history file lies below the user's cache directory.
pub open spec fn history_path(cache_dir: Seq<char>) -> Seq<char> {
    joined(joined(cache_dir, "nlauncher"@), "clipboard_history.txt"@)
}

/// The cache directory of the user: the configured one if there is one,
/// else `.cache` below the home directory.
pub open spec fn cache_home(configured: Option<Seq<char>>, home: Seq<char>) -> Seq<char> {
    match configured {
        Some(dir) => dir,
        None => home + "/.cache"@,
    }
}

/// Whether a query asks for the clipboard history: it begins with `clip`.
pub fn is_clipboard_query(query: &str) -> (r: bool)
    ensures
        r == starts_with(query@, "clip"@),
{
    let text = chars_of(query);
    let prefix = chars_of("clip");
    has_prefix(&text, &prefix)
}

/// The path of the history file, from the configured cache directory (if
/// any) and the home directory.
pub fn get_history_path(configured: Option<&str>, home: &str) -> (path: String)
    ensures
        path@ == history_path(
            cache_home(
                match configured {
                    Some(dir) => Some(dir@),
                    None => None,
                },
                home@,
            ),
        ),
{
    let cache_dir: String = match configured {
        Some(dir) => dir.to_owned(),
        None => home.to_owned().concat("/.cache"),
    };
    let app_dir = join_path(cache_dir.as_str(), "nlauncher");
    join_path(app_dir.as_str(), "clipboard_history.txt")
}

/// The history that a history file holds, most recent first; empty when
/// there is no readable file.
pub fn get_clipboard_history(file: Option<&str>) -> (history: Vec<ClipboardEntry>)
    ensures
        contents(history@) == match file {
            Some(text) => lines(text@),
            None => Seq::empty(),
        },
{
    let mut history: Vec<ClipboardEntry> = Vec::new();
    match file {
        Some(text) => {
            let mut found = split_lines(text);
            let ghost all = texts(found@);
            let n: usize = found.len();
            let mut i: usize = 0;
            while i < n
                invariant
                    i <= n,
                    n == found.len(),
                    texts(found@) == all,
                    contents(history@) == all.take(i as int),
                decreases n - i,
            {
                let ghost before = contents(history@);
                history.push(ClipboardEntry { content: found[i].clone() });
                assert(contents(history@) =~= before.push(all[i as int]));
                assert(all.take(i + 1) =~= all.take(i as int).push(all[i as int]));
                i += 1;
            }
            assert(all.take(n as int) =~= all);
        },
        None => {
            assert(contents(history@) =~= Seq::<Seq<char>>::empty());
        },
    }
    history
}

/// The text of a history file for `history`.
pub fn format_history(history: &Vec<String>) -> (text: String)
    ensures
        text@ == serialized(texts(history@)),
{
    let mut text = String::new();
    let mut i: usize = 0;
    proof {
        assert(texts(history@.take(0)) =~= Seq::<Seq<char>>::empty());
    }
    while i < history.len()
        invariant
            i <= history.len(),
            text@ == serialized(texts(history@.take(i as int))),
        decreases history.len() - i,
    {
        proof {
            reveal_strlit("\n");
            assert("\n"@ =~= seq!['\n']);
            let upto = texts(history@.take(i + 1));
            assert(upto.drop_last() =~= texts(history@.take(i as int)));
            assert(upto.last() == history@[i as int]@);
        }
        text.append(history[i].as_str());
        text.append("\n");
        i += 1;
    }
    assert(history@.take(history.len() as int) =~= history@);
    text
}

/// Puts `content` in front of `history`, drops every earlier copy of it,
/// and cuts the history to its capacity.
pub fn remember(history: &mut Vec<String>, content: &str)
    ensures
        texts(final(history)@) == remembered(texts(old(history)@), content@),
{
    let probe: String = content.to_owned();
    let ghost pred = other_than(content@);
    let ghost earlier = texts(old(history)@);
    let mut kept: Vec<String> = Vec::new();
    kept.push(probe.clone());
    let n: usize = history.len();
    let mut i: usize = 0;
    proof {
        reveal(Seq::filter);
        assert(earlier.take(0).filter(pred) =~= Seq::<Seq<char>>::empty());
        assert(texts(kept@) =~= seq![content@] + earlier.take(0).filter(pred));
    }
    while i < n
        invariant
            i <= n,
            n == history.len(),
            *history == *old(history),
            earlier == texts(history@),
            probe@ == content@,
            pred == other_than(content@),
            1 <= kept.len() <= MAX_HISTORY,
            ({
                let full = seq![content@] + earlier.take(i as int).filter(pred);
                texts(kept@) == if full.len() > MAX_HISTORY {
                    full.take(MAX_HISTORY as int)
                } else {
                    full
                }
            }),
        decreases n - i,
    {
        let ghost before = texts(kept@);
        let ghost full = seq![content@] + earlier.take(i as int).filter(pred);
        let differs: bool = history[i] != probe;
        let room: bool = kept.len() < MAX_HISTORY;
        if differs && room {
            kept.push(history[i].clone());
        }
        proof {
            let x = earlier[i as int];
            assert(earlier.take(i + 1) =~= earlier.take(i as int).push(x));
            lemma_filter_push(earlier.take(i as int), x, pred);
            let next = seq![content@] + earlier.take(i + 1).filter(pred);
            if differs {
                assert(next =~= full.push(x));
                if room {
                    assert(texts(kept@) =~= before.push(x));
                    assert(texts(kept@) =~= next);
                } else {
                    assert(next.take(MAX_HISTORY as int) =~= full.take(MAX_HISTORY as int));
                }
            } else {
                assert(next =~= full);
            }
        }
        i += 1;
    }
    assert(earlier.take(n as int) =~= earlier);
    *history = kept;
}

/// Copying a text that the history already holds brings it to the front and
/// does not make the history longer.
pub proof fn lemma_duplicate_moves_to_front(history: Seq<Seq<char>>, content: Seq<char>, at: int)
    requires
        0 <= at < history.len(),
        history[at] == content,
    ensures
        remembered(history, content)[0] == content,
        remembered(history, content).len() <= history.len(),
{
    lemma_filter_drops(history, other_than(content), at);
}

/// No text stands twice in `history`.
pub open spec fn all_distinct(history: Seq<Seq<char>>) -> bool {
    forall|i: int, j: int| 0 <= i < j < history.len() ==> history[i] != history[j]
}

/// In a history without repeats, dropping every copy of the text at
/// position `at` drops that one text and nothing else.
pub proof fn lemma_filter_removes_one(history: Seq<Seq<char>>, at: int)
    requires
        all_distinct(history),
        0 <= at < history.len(),
    ensures
        history.filter(other_than(history[at])) == history.remove(at),
    decreases history.len(),
{
    let pred = other_than(history[at]);
    let front = history.drop_last();
    let last = history.last();
    assert(history =~= front.push(last));
    lemma_filter_push(front, last, pred);
    if at == history.len() - 1 {
        assert forall|i: int| 0 <= i < front.len() implies pred(front[i]) by {
            assert(history[i] != history[at]);
        }
        lemma_filter_keeps_all(front, pred);
        assert(history.remove(at) =~= front);
    } else {
        assert(all_distinct(front)) by {
            assert forall|i: int, j: int| 0 <= i < j < front.len() implies front[i] != front[j] by {
                assert(history[i] != history[j]);
            }
        }
        assert(front[at] == history[at]);
        lemma_filter_removes_one(front, at);
        assert(history[at] != last);
        assert(history.remove(at) =~= front.remove(at).push(last));
    }
}

/// Copying again a text that a history without repeats holds, in a history
/// that is within its capacity, moves that text to the front: the history
/// keeps its length, and all the other texts keep their order.
pub proof fn lemma_copy_again_moves_to_front(history: Seq<Seq<char>>, at: int)
    requires
        all_distinct(history),
        0 <= at < history.len(),
        history.len() <= MAX_HISTORY,
    ensures
        remembered(history, history[at]) == seq![history[at]] + history.remove(at),
        remembered(history, history[at]).len() == history.len(),
{
    lemma_filter_removes_one(history, at);
}

/// Copying again the text that stands second brings it to the front, puts
/// the text that was first behind it, and leaves the rest as it was.
pub proof fn lemma_second_entry_moves_to_front(history: Seq<Seq<char>>)
    requires
        all_distinct(history),
        2 <= history.len() <= MAX_HISTORY,
    ensures
        remembered(history, history[1]) == seq![history[1], history[0]] + history.skip(2),
{
    lemma_copy_again_moves_to_front(history, 1);
    assert(seq![history[1]] + history.remove(1) =~= seq![history[1], history[0]] + history.skip(2));
}

/// Copying a new text into a full history puts it in front and drops the
/// oldest text; all the others keep their order.
pub proof fn lemma_new_entry_evicts_oldest(history: Seq<Seq<char>>, content: Seq<char>)
    requires
        history.len() == MAX_HISTORY,
        forall|i: int| 0 <= i < history.len() ==> history[i] != content,
    ensures
        remembered(history, content) == seq![content] + history.take(MAX_HISTORY - 1),
{
    lemma_filter_keeps_all(history, other_than(content));
    assert(remembered(history, content) =~= seq![content] + history.take(MAX_HISTORY - 1));
}

/// The history never holds more than its capacity, and the text just copied
/// is its first.
pub proof fn lemma_remembered_bounds(history: Seq<Seq<char>>, content: Seq<char>)
    ensures
        1 <= remembered(history, content).len() <= MAX_HISTORY,
        remembered(history, content)[0] == content,
{
}

/// What a [`ClipboardMonitor`] holds.
pub struct MonitorState {
    /// The text seen last, empty before anything was seen.
    pub last_content: Seq<char>,
    /// The history, most recent first.
    pub history: Seq<Seq<char>>,
}

/// Decides, for every reading of the clipboard, whether the history changes.
pub struct ClipboardMonitor {
    last_content: String,
    history: Vec<String>,
}

impl View for ClipboardMonitor {
    type V = MonitorState;

    closed spec fn view(&self) -> MonitorState {
        MonitorState { last_content: self.last_content@, history: texts(self.history@) }
    }
}

/// A reading counts as new when it is there, is not empty and differs from
/// the text seen last.
pub open spec fn is_new_content(state: MonitorState, reading: Option<Seq<char>>) -> bool {
    &&& reading is Some
    &&& reading->0.len() > 0
    &&& reading->0 != state.last_content
}

impl ClipboardMonitor {
    /// A monitor that starts from a stored history and has seen nothing yet.
    pub fn new(history: Vec<String>) -> (monitor: Self)
        ensures
            monitor@ == (MonitorState {
                last_content: Seq::empty(),
                history: texts(history@),
            }),
    {
        ClipboardMonitor { last_content: String::new(), history }
    }

    /// The history, most recent first.
    pub fn history(&self) -> (history: &Vec<String>)
        ensures
            texts(history@) == self@.history,
    {
        &self.history
    }

    /// Takes one reading of the clipboard. A new text goes to the front of
    /// the history and becomes the text seen last; the answer then is yes,
    /// and the history is due to be written out. Any other reading changes
    /// nothing.
    pub fn observe(&mut self, reading: Option<&str>) -> (changed: bool)
        ensures
            changed == is_new_content(
                old(self)@,
                match reading {
                    Some(text) => Some(text@),
                    None => None,
                },
            ),
            changed ==> final(self)@ == (MonitorState {
                last_content: reading->0@,
                history: remembered(old(self)@.history, reading->0@),
            }),
            !changed ==> final(self)@ == old(self)@,
    {
        match reading {
            Some(text) => {
                let seen: String = text.to_owned();
                if text.unicode_len() == 0 || seen == self.last_content {
                    return false;
                }
                remember(&mut self.history, text);
                self.last_content = seen;
                true
            },
            None => false,
        }
    }
}

} // verus!
