//! The in-memory command history and where it is kept on disk.
use vstd::prelude::*;
use vstd::string::*;

verus! {

/// The most entries the history keeps.
pub const MAX_HISTORY_SIZE: usize = 1000;

/// The last `MAX_HISTORY_SIZE` entries of `h` (all of them when there are
/// fewer).
pub open spec fn capped(h: Seq<Seq<char>>) -> Seq<Seq<char>> {
    if h.len() > MAX_HISTORY_SIZE {
        h.subrange(h.len() - MAX_HISTORY_SIZE, h.len() as int)
    } else {
        h
    }
}

pub open spec fn lines(h: Seq<String>) -> Seq<Seq<char>> {
    h.map_values(|s: String| s@)
}

/// Where the history of a user is stored: `.pmsh_history` in the home
/// directory.
pub struct HistoryManager {
    history_file: String,
}

impl HistoryManager {
    pub closed spec fn file(&self) -> Seq<char> {
        self.history_file@
    }

    /// The manager for the home directory `home`; an error when there is no
    /// home directory.
    pub fn new(home: Option<String>) -> (r: Result<HistoryManager, String>)
        ensures
            match home {
                Some(h) => r is Ok && r->Ok_0.file() == h@ + "/.pmsh_history"@,
                None => r is Err,
            },
    {
        match home {
            Some(h) => {
                let path = h.concat("/.pmsh_history");
                Ok(HistoryManager { history_file: path })
            },
            None => Err(String::from_str("Failed to get HOME environment variable")),
        }
    }

    /// The path of the history file.
    pub fn path(&self) -> (r: &String)
        ensures
            r@ == self.file(),
    {
        &self.history_file
    }

    /// The entries to persist: the most recent `MAX_HISTORY_SIZE`.
    pub fn to_save(&self, history: &Vec<String>) -> (r: Vec<String>)
        ensures
            lines(r@) == capped(lines(history@)),
    {
        let start = if history.len() > MAX_HISTORY_SIZE {
            history.len() - MAX_HISTORY_SIZE
        } else {
            0
        };
        let mut r: Vec<String> = Vec::new();
        let mut i = start;
        while i < history.len()
            invariant
                start <= i <= history@.len(),
                start == (if history@.len() > MAX_HISTORY_SIZE {
                    history@.len() - MAX_HISTORY_SIZE
                } else {
                    0
                }),
                lines(r@) == lines(history@).subrange(start as int, i as int),
            decreases history@.len() - i,
        {
            let ghost old_r = r@;
            let item = history[i].clone();
            r.push(item);
            assert(lines(r@) =~= lines(old_r).push(history@[i as int]@));
            i = i + 1;
            assert(lines(r@) =~= lines(history@).subrange(start as int, i as int));
        }
        assert(lines(history@).len() == history@.len());
        assert(lines(history@).subrange(0, lines(history@).len() as int) =~= lines(history@));
        r
    }

    /// Appends `entry` to `history` and drops the oldest entries beyond
    /// `MAX_HISTORY_SIZE`.
    pub fn add_entry(&self, entry: &str, history: &mut Vec<String>)
        ensures
            lines(final(history)@) == capped(lines(old(history)@).push(entry@)),
    {
        history.push(String::from_str(entry));
        assert(lines(history@) =~= lines(old(history)@).push(entry@));
        if history.len() > MAX_HISTORY_SIZE {
            let kept = self.to_save(history);
            *history = kept;
        }
    }
}

} // verus!
