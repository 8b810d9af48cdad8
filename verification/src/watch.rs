//! Watching the project root: whether to watch, which file-system events
//! concern the root, and the debouncing of change notifications.

use vstd::prelude::*;

use crate::text::chars_of;

verus! {

/// Whether a character has the Unicode White_Space property, as
/// `char::is_whitespace` tests it: the controls U+0009 to U+000D, the space,
/// U+0085, the no-break space, the Ogham space mark, the spaces U+2000 to
/// U+200A, the line and paragraph separators, the narrow no-break space, the
/// medium mathematical space and the ideographic space.
pub open spec fn white_space(c: char) -> bool {
    let n = c as u32;
    ||| 0x09 <= n <= 0x0d
    ||| n == 0x20
    ||| n == 0x85
    ||| n == 0xa0
    ||| n == 0x1680
    ||| 0x2000 <= n <= 0x200a
    ||| n == 0x2028
    ||| n == 0x2029
    ||| n == 0x202f
    ||| n == 0x205f
    ||| n == 0x3000
}

/// Whether a character is white space.
pub fn is_white_space(c: char) -> (r: bool)
    ensures
        r == white_space(c),
{
    let n = c as u32;
    (0x09 <= n && n <= 0x0d) || n == 0x20 || n == 0x85 || n == 0xa0 || n == 0x1680 || (0x2000 <= n && n <= 0x200a)
        || n == 0x2028 || n == 0x2029 || n == 0x202f || n == 0x205f || n == 0x3000
}

/// A string is blank when every character is white space (so that trimming
/// it leaves nothing).
pub open spec fn is_blank(s: Seq<char>) -> bool {
    forall|i: int| 0 <= i < s.len() ==> white_space(#[trigger] s[i])
}

/// Whether `s` is blank.
pub fn blank(s: &str) -> (r: bool)
    ensures
        r == is_blank(s@),
{
    let cs = chars_of(s);
    let mut i: usize = 0;
    while i < cs.len()
        invariant
            cs@ == s@,
            i <= cs.len(),
            forall|j: int| 0 <= j < i ==> white_space(#[trigger] s@[j]),
        decreases cs.len() - i,
    {
        if !is_white_space(cs[i]) {
            return false;
        }
        i = i + 1;
    }
    true
}

/// What to do when asked to watch a project root.
pub enum WatchPlan {
    /// Stop watching: no root is given.
    Stop,
    /// Watch the root.
    Watch,
    /// Refuse, with this error.
    Refuse(String),
}

/// The plan for watching `project_root`: a blank root only stops the
/// current watch; a root that is not a folder is refused.
pub fn plan_watch(project_root: &str, is_dir: bool) -> (r: WatchPlan)
    ensures
        is_blank(project_root@) ==> r is Stop,
        !is_blank(project_root@) && !is_dir ==> (r matches WatchPlan::Refuse(m) && m@
            == "Project root is not a directory"@),
        !is_blank(project_root@) && is_dir ==> r is Watch,
{
    if blank(project_root) {
        WatchPlan::Stop
    } else if !is_dir {
        WatchPlan::Refuse("Project root is not a directory".to_owned())
    } else {
        WatchPlan::Watch
    }
}

/// How one path of a file-system event relates to the watched root.
pub struct PathScope {
    /// The path, as reported, lies under the root.
    pub under_root: bool,
    /// The path, made canonical, lies under the root; `None` when it could
    /// not be made canonical.
    pub canonical_under_root: Option<bool>,
}

/// Whether one path of an event lies under the root, as reported or once
/// made canonical.
pub open spec fn path_in_scope(p: PathScope) -> bool {
    p.under_root || p.canonical_under_root == Some(true)
}

/// Whether an event concerns the watched root: one of its paths lies under it.
pub fn event_in_scope(paths: &Vec<PathScope>) -> (r: bool)
    ensures
        r == exists|i: int| 0 <= i < paths.len() && path_in_scope(#[trigger] paths@[i]),
{
    let mut i: usize = 0;
    while i < paths.len()
        invariant
            i <= paths.len(),
            forall|j: int| 0 <= j < i ==> !path_in_scope(#[trigger] paths@[j]),
        decreases paths.len() - i,
    {
        let p = &paths[i];
        let canonical = match p.canonical_under_root {
            Some(b) => b,
            None => false,
        };
        if p.under_root || canonical {
            return true;
        }
        i = i + 1;
    }
    false
}

/// The quiet time, in milliseconds, after the last change before the
/// client list is refreshed.
pub open spec fn debounce_ms() -> int {
    500
}

/// What the watcher thread received in one turn.
pub enum Received {
    /// An event that concerns the root.
    InScope,
    /// An event that does not concern the root.
    OutOfScope,
    /// An error from the watcher.
    WatchError,
    /// Nothing within the wait.
    Nothing,
    /// The watcher has gone away.
    Closed,
}

/// What the watcher thread does after one turn.
pub enum Step {
    /// Tell the window that the clients changed.
    Notify,
    /// Wait for more.
    Wait,
    /// Stop the thread.
    Exit,
}

/// Whether what was received is a change: an event in scope or a watcher
/// error.
pub open spec fn is_change(received: Received) -> bool {
    received is InScope || received is WatchError
}

/// One turn of debouncing at time `now_ms`, from the state `s` (whether a
/// change is pending, and when the last change was seen): the state after
/// it and what the thread does.
pub open spec fn turn(s: (bool, u64), received: Received, now_ms: u64) -> ((bool, u64), Step) {
    if received is Closed {
        (s, Step::Exit)
    } else {
        let pending = is_change(received) || s.0;
        let last = if is_change(received) { now_ms } else { s.1 };
        if pending && now_ms - last >= debounce_ms() {
            ((false, last), Step::Notify)
        } else {
            ((pending, last), Step::Wait)
        }
    }
}

/// The state after a run of turns, each what was received and when.
pub open spec fn run_state(s: (bool, u64), turns: Seq<(Received, u64)>) -> (bool, u64)
    decreases turns.len(),
{
    if turns.len() == 0 {
        s
    } else {
        turn(run_state(s, turns.drop_last()), turns.last().0, turns.last().1).0
    }
}

/// What the thread does at each turn of a run.
pub open spec fn run_steps(s: (bool, u64), turns: Seq<(Received, u64)>) -> Seq<Step>
    decreases turns.len(),
{
    if turns.len() == 0 {
        Seq::empty()
    } else {
        run_steps(s, turns.drop_last()).push(turn(run_state(s, turns.drop_last()), turns.last().0, turns.last().1).1)
    }
}

/// Debouncing over a run of turns that starts with no change pending: every
/// notification answers a change seen at or after the turn that followed
/// the previous notification. So a burst of changes is notified once, and a
/// run without changes notifies nothing.
pub proof fn lemma_notify_answers_change(start_ms: u64, turns: Seq<(Received, u64)>)
    ensures
        run_steps((false, start_ms), turns).len() == turns.len(),
        forall|j: int|
            0 <= j < turns.len() && (#[trigger] run_steps((false, start_ms), turns)[j]) is Notify ==> exists|k: int|
                0 <= k <= j && is_change(#[trigger] turns[k].0) && forall|i: int|
                    k <= i < j ==> !(run_steps((false, start_ms), turns)[i] is Notify),
        run_state((false, start_ms), turns).0 ==> exists|k: int|
            0 <= k < turns.len() && is_change(#[trigger] turns[k].0) && forall|i: int|
                k <= i < turns.len() ==> !(run_steps((false, start_ms), turns)[i] is Notify),
    decreases turns.len(),
{
    let s0 = (false, start_ms);
    if turns.len() > 0 {
        let prefix = turns.drop_last();
        lemma_notify_answers_change(start_ms, prefix);
        let before = run_state(s0, prefix);
        let steps = run_steps(s0, turns);
        let prev = run_steps(s0, prefix);
        let n = prefix.len() as int;
        let (received, now) = turns.last();
        assert(steps == prev.push(turn(before, received, now).1));
        assert forall|i: int| 0 <= i < n implies steps[i] == prev[i] && turns[i] == prefix[i] by {}
        assert(turns[n] == turns.last());
        assert forall|j: int| 0 <= j < turns.len() && (#[trigger] steps[j]) is Notify implies exists|k: int|
            0 <= k <= j && is_change(#[trigger] turns[k].0) && forall|i: int| k <= i < j ==> !(steps[i] is Notify) by {
            if j < n {
                assert(prev[j] is Notify);
                let k = choose|k: int|
                    0 <= k <= j && is_change(#[trigger] prefix[k].0) && forall|i: int| k <= i < j ==> !(prev[i] is Notify);
                assert(is_change(turns[k].0));
                assert forall|i: int| k <= i < j implies !(steps[i] is Notify) by {
                    assert(steps[i] == prev[i]);
                }
            } else if is_change(received) {
                assert(is_change(turns[n].0));
            } else {
                let k = choose|k: int|
                    0 <= k < n && is_change(#[trigger] prefix[k].0) && forall|i: int| k <= i < n ==> !(prev[i] is Notify);
                assert(is_change(turns[k].0));
                assert forall|i: int| k <= i < j implies !(steps[i] is Notify) by {
                    assert(steps[i] == prev[i]);
                }
            }
        }
        if run_state(s0, turns).0 {
            assert(!(steps[n] is Notify));
            if is_change(received) {
                assert(is_change(turns[n].0));
            } else {
                let k = choose|k: int|
                    0 <= k < n && is_change(#[trigger] prefix[k].0) && forall|i: int| k <= i < n ==> !(prev[i] is Notify);
                assert(is_change(turns[k].0));
                assert forall|i: int| k <= i < turns.len() implies !(steps[i] is Notify) by {
                    if i < n {
                        assert(steps[i] == prev[i]);
                    }
                }
            }
        }
    }
}

/// The debouncing state of the watcher thread.
pub struct Debouncer {
    pending: bool,
    last_change_ms: u64,
}

impl Debouncer {
    /// Whether a change awaits notification.
    pub closed spec fn pending(&self) -> bool {
        self.pending
    }

    /// When the last change was seen, in milliseconds.
    pub closed spec fn last_change(&self) -> u64 {
        self.last_change_ms
    }

    /// No change pending.
    pub fn new(now_ms: u64) -> (r: Debouncer)
        ensures
            !r.pending(),
            r.last_change() == now_ms,
    {
        Debouncer { pending: false, last_change_ms: now_ms }
    }

    /// One turn of the watcher thread at time `now_ms`: a change in scope or
    /// a watcher error marks a pending change seen now; a closed watcher
    /// ends the thread; a pending change is notified once it is at least
    /// the debounce time old, and is then no longer pending.
    pub fn step(&mut self, received: Received, now_ms: u64) -> (r: Step)
        ensures
            received is Closed ==> r is Exit && *final(self) == *old(self),
            !(received is Closed) ==> ({
                let changed = received is InScope || received is WatchError;
                let pending = changed || old(self).pending();
                let last = if changed { now_ms } else { old(self).last_change() };
                if pending && now_ms - last >= debounce_ms() {
                    r is Notify && !final(self).pending() && final(self).last_change() == last
                } else {
                    r is Wait && final(self).pending() == pending && final(self).last_change() == last
                }
            }),
            (final(self).pending(), final(self).last_change()) == turn(
                (old(self).pending(), old(self).last_change()),
                received,
                now_ms,
            ).0,
            r == turn((old(self).pending(), old(self).last_change()), received, now_ms).1,
    {
        match received {
            Received::Closed => {
                return Step::Exit;
            },
            Received::InScope | Received::WatchError => {
                self.pending = true;
                self.last_change_ms = now_ms;
            },
            Received::OutOfScope | Received::Nothing => {},
        }
        if self.pending && now_ms >= self.last_change_ms && now_ms - self.last_change_ms >= 500 {
            self.pending = false;
            Step::Notify
        } else {
            Step::Wait
        }
    }
}

} // verus!
