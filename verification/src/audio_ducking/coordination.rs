//! How processes find each other: instance names, the lock, and where the files are.
use vstd::prelude::*;

use crate::text;

verus! {

/// How long a pass waits for the lock before it goes on without, in milliseconds.
pub const LOCK_WAIT_MS: u64 = 750;

/// How long to wait before the lock is tried again, in milliseconds.
pub const LOCK_RETRY_MS: u64 = 5;

// ---------------------------------------------------------------------------
// Instances
// ---------------------------------------------------------------------------

/// The name of an instance: the process and the number within it.
pub open spec fn instance_name(pid: nat, number: nat) -> Seq<char> {
    text::decimal(pid) + ":"@ + text::decimal(number)
}

/// Names the instances of a process.
#[derive(Debug)]
pub struct InstanceNames {
    pid: u32,
    next: u64,
}

impl InstanceNames {
    pub closed spec fn pid(&self) -> u32 {
        self.pid
    }

    /// The number of the next instance.
    pub closed spec fn next(&self) -> u64 {
        self.next
    }

    pub fn new(pid: u32) -> (names: Self)
        ensures
            names.pid() == pid,
            names.next() == 0,
    {
        InstanceNames { pid, next: 0 }
    }

    /// The name of the next instance.
    pub fn generate_instance_id(&mut self) -> (name: String)
        ensures
            name@ == instance_name(old(self).pid() as nat, old(self).next() as nat),
            final(self).pid() == old(self).pid(),
            final(self).next() == old(self).next().wrapping_add(1),
    {
        let mut name = String::new();
        text::push_decimal(&mut name, self.pid as u64);
        name.append(":");
        text::push_decimal(&mut name, self.next);
        self.next = self.next.wrapping_add(1);
        name
    }
}

/// Two instances with the same name are the same instance of the same process.
pub proof fn law_instance_names_differ(pid: nat, number: nat, other_pid: nat, other_number: nat)
    requires
        instance_name(pid, number) == instance_name(other_pid, other_number),
    ensures
        pid == other_pid,
        number == other_number,
{
    let a = instance_name(pid, number);
    let b = instance_name(other_pid, other_number);
    lemma_parts(pid, number);
    lemma_parts(other_pid, other_number);
    text::lemma_decimal(pid);
    text::lemma_decimal(number);
    text::lemma_decimal(other_pid);
    text::lemma_decimal(other_number);
    assert(text::head(a, ':') == text::head(b, ':'));
    assert(text::after(a, ':') == text::after(b, ':'));
}

proof fn lemma_parts(pid: nat, number: nat)
    ensures
        text::head(instance_name(pid, number), ':') == text::decimal(pid),
        text::after(instance_name(pid, number), ':') == Some(text::decimal(number)),
{
    let s = instance_name(pid, number);
    let k = text::decimal(pid).len() as int;
    reveal_strlit(":");
    text::lemma_decimal(pid);
    assert forall|i: int| 0 <= i < k implies #[trigger] s[i] != ':' by {
        assert(s[i] == text::decimal(pid)[i]);
        assert(text::is_digit(text::decimal(pid)[i]));
    }
    text::lemma_find_unique(s, ':', k);
    assert(s.take(k) == text::decimal(pid));
    assert(s.skip(k + 1) == text::decimal(number));
}

// ---------------------------------------------------------------------------
// The lock
// ---------------------------------------------------------------------------

/// What follows a try to open the lock file.
#[derive(Clone, Copy, Debug, PartialEq, Eq, Structural)]
pub enum LockStep {
    /// The lock is held.
    Held,
    /// Try again after this many milliseconds.
    RetryAfter(u64),
    /// The time is up; go on without.
    GiveUp,
}

/// After a try to open the lock file, `elapsed_ms` after the first one.
pub fn after_lock_try(opened: bool, elapsed_ms: u64, timeout_ms: u64) -> (step: LockStep)
    ensures
        step == (if opened {
            LockStep::Held
        } else if elapsed_ms >= timeout_ms {
            LockStep::GiveUp
        } else {
            LockStep::RetryAfter(LOCK_RETRY_MS)
        }),
{
    if opened {
        LockStep::Held
    } else if elapsed_ms >= timeout_ms {
        LockStep::GiveUp
    } else {
        LockStep::RetryAfter(LOCK_RETRY_MS)
    }
}

// ---------------------------------------------------------------------------
// The files
// ---------------------------------------------------------------------------

/// The directory that the state file and the lock file are in.
#[derive(Clone, Copy, Debug, PartialEq, Eq, Structural)]
pub enum StateDir {
    /// The one that the user has named.
    Custom,
    /// A subdirectory of the user's local application data.
    UnderLocalData,
    /// A subdirectory of the directory for temporary files. Cleaners delete what is there,
    /// so it is the last choice.
    UnderTemp,
}

/// Where the files are kept, given which of the two environment variables are set.
pub fn state_dir(custom_is_set: bool, local_data_is_set: bool) -> (dir: StateDir)
    ensures
        dir == (if custom_is_set {
            StateDir::Custom
        } else if local_data_is_set {
            StateDir::UnderLocalData
        } else {
            StateDir::UnderTemp
        }),
{
    if custom_is_set {
        StateDir::Custom
    } else if local_data_is_set {
        StateDir::UnderLocalData
    } else {
        StateDir::UnderTemp
    }
}

// ---------------------------------------------------------------------------
// Session identifiers
// ---------------------------------------------------------------------------

/// What follows the last backslash of a session identifier.
pub open spec fn last_component(id: Seq<char>) -> Seq<char>
    decreases id.len(),
{
    match text::after(id, '\\') {
        Some(rest) => if rest.len() < id.len() {
            last_component(rest)
        } else {
            rest
        },
        None => id,
    }
}

/// The last path component of a session identifier, for readable logs.
pub fn tail(id: &str) -> (res: String)
    ensures
        res@ == last_component(id@),
{
    let v = text::characters(id);
    let mut from: usize = 0;
    assert(v@.skip(0) == v@);
    loop
        invariant
            from <= v.len(),
            v@ == id@,
            last_component(id@) == last_component(v@.skip(from as int)),
        ensures
            from <= v.len(),
            last_component(id@) == v@.skip(from as int),
        decreases v.len() - from,
    {
        let ghost rest = v@.skip(from as int);
        let k: usize = text::find_from(&v, from, '\\');
        proof {
            text::lemma_find(rest, '\\');
        }
        if k == v.len() {
            break;
        }
        assert(rest.skip(k - from + 1) == v@.skip(k + 1));
        from = k + 1;
    }
    assert(v@.skip(from as int) == v@.subrange(from as int, v@.len() as int));
    text::string_of(&v, from, v.len())
}

/// The tail of an identifier holds no backslash, and is all of what follows the last one; an
/// identifier without one is its own tail.
pub proof fn law_tail_follows_the_last_backslash(id: Seq<char>)
    ensures
        last_component(id).len() <= id.len(),
        last_component(id) == id.skip(id.len() - last_component(id).len()),
        forall|i: int|
            0 <= i < last_component(id).len() ==> #[trigger] last_component(id)[i] != '\\',
        last_component(id).len() < id.len() ==> id[id.len() - last_component(id).len() - 1] == '\\',
    decreases id.len(),
{
    text::lemma_find(id, '\\');
    match text::after(id, '\\') {
        Some(rest) => {
            assert(rest.len() < id.len());
            law_tail_follows_the_last_backslash(rest);
            let t = last_component(rest);
            assert(rest.skip(rest.len() - t.len()) =~= id.skip(id.len() - t.len()));
            if t.len() < rest.len() {
                assert(rest[rest.len() - t.len() - 1] == id[id.len() - t.len() - 1]);
            }
        },
        None => {
            assert(id.skip(0) =~= id);
        },
    }
}

/// An instance's name is its process and its number, in digits, with a colon between.
pub proof fn law_instance_name(pid: nat, number: nat)
    ensures
        instance_name(pid, number) == text::decimal(pid).push(':') + text::decimal(number),
{
    reveal_strlit(":");
    assert(instance_name(pid, number) =~= text::decimal(pid).push(':') + text::decimal(number));
}

} // verus!
