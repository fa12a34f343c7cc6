//! A bounded, per-source log: lines arrive on a channel and are kept, at most
//! `LOG_CAPACITY` of them, newest last.
use vstd::prelude::*;

use std::sync::mpsc::{Receiver, Sender};

use crate::channel::{clone_sender, open_channel, take_queued};
use crate::jetson::Signal;

verus! {

/// How many lines a log keeps.
pub const LOG_CAPACITY: usize = 60;

/// The most recent `LOG_CAPACITY` items of `s` (all of them when there are fewer).
pub open spec fn keep_recent<A>(s: Seq<A>) -> Seq<A> {
    if s.len() <= LOG_CAPACITY {
        s
    } else {
        s.subrange(s.len() - LOG_CAPACITY, s.len() as int)
    }
}

/// The main log after the signals, in order: each message is appended and
/// the log kept to the most recent `LOG_CAPACITY` lines at each step.
pub open spec fn log_after(log: Seq<Seq<char>>, sigs: Seq<Signal>) -> Seq<Seq<char>>
    decreases sigs.len(),
{
    if sigs.len() == 0 {
        log
    } else {
        match sigs.last() {
            Signal::Message(m) => keep_recent(log_after(log, sigs.drop_last()).push(m@)),
            _ => log_after(log, sigs.drop_last()),
        }
    }
}

pub open spec fn lines_view(v: Seq<String>) -> Seq<Seq<char>> {
    Seq::new(v.len(), |i: int| v[i]@)
}

/// The text a log shows: its lines one after the other.
pub open spec fn joined(ls: Seq<Seq<char>>) -> Seq<char>
    decreases ls.len(),
{
    if ls.len() == 0 {
        Seq::empty()
    } else {
        joined(ls.drop_last()) + ls.last()
    }
}

pub struct Logger {
    pub name: String,
    pub rx: Option<Receiver<String>>,
    pub tx: Option<Sender<String>>,
    pub scroll: isize,
    pub opened: bool,
    pub lines: Vec<String>,
    pub buffer: String,
}

impl Logger {
    /// The lines the log holds, oldest first.
    pub open spec fn log(&self) -> Seq<Seq<char>> {
        lines_view(self.lines@)
    }

    /// Whether the log has a channel to be fed by.
    pub open spec fn has_channel(&self) -> bool {
        self.rx is Some && self.tx is Some
    }

    pub fn new(name: &str) -> (r: Self)
        ensures
            r.name@ == name@,
            r.log() == Seq::<Seq<char>>::empty(),
            !r.has_channel(),
            r.scroll == 0,
            !r.opened,
    {
        let r = Logger {
            name: String::from_str(name),
            rx: None,
            tx: None,
            scroll: 0,
            opened: false,
            lines: Vec::new(),
            buffer: String::new(),
        };
        assert(r.log() =~= Seq::<Seq<char>>::empty());
        r
    }

    /// Gives the log a new channel; senders made before no longer feed it.
    pub fn init(&mut self)
        ensures
            final(self).has_channel(),
            final(self).log() == old(self).log(),
            final(self).name == old(self).name,
            final(self).opened == old(self).opened,
            final(self).scroll == old(self).scroll,
    {
        let (tx, rx) = open_channel();
        self.rx = Some(rx);
        self.tx = Some(tx);
    }

    /// A sending end that feeds this log.
    pub fn create_new_publisher(&mut self) -> (r: Sender<String>)
        requires
            old(self).has_channel(),
        ensures
            *final(self) == *old(self),
    {
        clone_sender(self.tx.as_ref().unwrap())
    }

    /// Drops a sending end.
    pub fn kill_tx(_tx: Sender<String>) {
    }

    /// Empties what the log holds; lines still queued on the channel stay
    /// there and come in at the next `output`.
    pub fn clear(&mut self)
        ensures
            final(self).log() == Seq::<Seq<char>>::empty(),
            final(self).buffer@ == Seq::<char>::empty(),
            final(self).rx == old(self).rx,
            final(self).tx == old(self).tx,
            final(self).name == old(self).name,
            final(self).opened == old(self).opened,
            final(self).scroll == old(self).scroll,
    {
        self.lines = Vec::new();
        self.buffer = String::new();
        assert(self.log() =~= Seq::<Seq<char>>::empty());
    }

    pub fn close(&mut self)
        ensures
            *final(self) == (Logger { opened: false, ..*old(self) }),
    {
        self.opened = false;
    }

    pub fn open(&mut self)
        ensures
            *final(self) == (Logger { opened: true, ..*old(self) }),
    {
        self.opened = true;
    }

    /// Adds the incoming lines after the ones held, then drops the oldest until
    /// at most `LOG_CAPACITY` remain.
    pub fn absorb(&mut self, incoming: Vec<String>)
        ensures
            final(self).log() == keep_recent(old(self).log() + lines_view(incoming@)),
            final(self).rx == old(self).rx,
            final(self).tx == old(self).tx,
            final(self).name == old(self).name,
            final(self).opened == old(self).opened,
            final(self).scroll == old(self).scroll,
    {
        let ghost all = old(self).log() + lines_view(incoming@);
        let mut merged: Vec<String> = Vec::new();
        std::mem::swap(&mut merged, &mut self.lines);
        let mut incoming = incoming;
        let ghost inc = incoming@;
        merged.append(&mut incoming);
        assert(lines_view(merged@) =~= all);
        let n = merged.len();
        if n > LOG_CAPACITY {
            let kept = merged.split_off(n - LOG_CAPACITY);
            assert(lines_view(kept@) =~= keep_recent(all));
            self.lines = kept;
        } else {
            self.lines = merged;
        }
    }

    /// Appends one line.
    pub fn append(&mut self, line: String)
        ensures
            final(self).log() == keep_recent(old(self).log().push(line@)),
            final(self).rx == old(self).rx,
            final(self).tx == old(self).tx,
            final(self).name == old(self).name,
            final(self).opened == old(self).opened,
            final(self).scroll == old(self).scroll,
    {
        let mut v: Vec<String> = Vec::new();
        v.push(line);
        assert(old(self).log() + lines_view(v@) =~= old(self).log().push(line@));
        self.absorb(v);
    }

    /// Takes the lines queued on the channel, keeps the most recent
    /// `LOG_CAPACITY` and returns the text of what is kept.
    pub fn output(&mut self) -> (r: &str)
        requires
            old(self).has_channel(),
        ensures
            exists|inc: Seq<Seq<char>>| final(self).log() == keep_recent(old(self).log() + inc),
            final(self).log().len() <= LOG_CAPACITY,
            r@ == joined(final(self).log()),
            final(self).rx == old(self).rx,
            final(self).tx == old(self).tx,
            final(self).name == old(self).name,
            final(self).opened == old(self).opened,
            final(self).scroll == old(self).scroll,
    {
        let incoming = match &self.rx {
            Some(rx) => take_queued(rx),
            None => Vec::new(),
        };
        self.absorb(incoming);
        let mut text = String::new();
        let mut i: usize = 0;
        while i < self.lines.len()
            invariant
                0 <= i <= self.lines.len(),
                text@ == joined(lines_view(self.lines@).subrange(0, i as int)),
            decreases self.lines.len() - i,
        {
            text.append(self.lines[i].as_str());
            assert(lines_view(self.lines@).subrange(0, i + 1).drop_last() =~= lines_view(
                self.lines@,
            ).subrange(0, i as int));
            i += 1;
        }
        assert(lines_view(self.lines@).subrange(0, i as int) =~= self.log());
        self.buffer = text;
        self.buffer.as_str()
    }
}

/// Log bound: whatever was held and whatever arrives, what a log keeps is at
/// most `LOG_CAPACITY` lines, and exactly the most recent ones of all lines
/// ever appended; trimming in between reads changes nothing.
pub proof fn lemma_log_bound<A>(history: Seq<A>, more: Seq<A>)
    ensures
        keep_recent(keep_recent(history) + more) == keep_recent(history + more),
        keep_recent(history + more).len() <= LOG_CAPACITY,
        keep_recent(history + more) == (history + more).subrange(
            (history + more).len() - keep_recent(history + more).len(),
            (history + more).len() as int,
        ),
{
    let all = history + more;
    let k = keep_recent(history);
    let a = keep_recent(k + more);
    let b = keep_recent(all);
    assert(a =~= b);
    assert(b =~= all.subrange(all.len() - b.len(), all.len() as int));
}

} // verus!
