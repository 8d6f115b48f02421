//! Accounting of the directory handles in use. Opening a handle or a directory listing
//! counts up, closing one counts down; the counter wraps like the machine word it is.
use vstd::prelude::*;

verus! {

/// The count after one handle was opened (`open`) or closed; the counter wraps like the
/// machine word it is.
pub open spec fn count_after(n: nat, open: bool) -> nat {
    if open {
        if n < usize::MAX { n + 1 } else { 0 }
    } else {
        if n > 0 { (n - 1) as nat } else { usize::MAX as nat }
    }
}

/// The count after the handles of `ops` were opened (true) and closed (false), in order.
pub open spec fn count_after_all(n: nat, ops: Seq<bool>) -> nat
    decreases ops.len(),
{
    if ops.len() == 0 {
        n
    } else {
        count_after(count_after_all(n, ops.drop_last()), ops.last())
    }
}

/// `n` plus the handles that `ops` opened minus those it closed.
pub open spec fn balance(n: int, ops: Seq<bool>) -> int
    decreases ops.len(),
{
    if ops.len() == 0 {
        n
    } else {
        balance(n, ops.drop_last()) + (if ops.last() { 1int } else { -1int })
    }
}

/// The number of values of the machine word the count wraps in.
pub open spec fn word_values() -> int {
    usize::MAX + 1
}

/// One step of the count follows the balance modulo the machine word.
proof fn lemma_count_step(x: nat, b: int, open: bool)
    requires
        x == b % word_values(),
    ensures
        count_after(x, open) == (b + (if open { 1int } else { -1int })) % word_values(),
{
    let m = word_values();
    vstd::arithmetic::div_mod::lemma_small_mod(1, m as nat);
    if open {
        vstd::arithmetic::div_mod::lemma_add_mod_noop(b, 1, m);
        if x + 1 < m {
            vstd::arithmetic::div_mod::lemma_small_mod((x + 1) as nat, m as nat);
        } else {
            vstd::arithmetic::div_mod::lemma_small_mod(0, m as nat);
            vstd::arithmetic::div_mod::lemma_mod_add_multiples_vanish(0, m);
        }
    } else {
        vstd::arithmetic::div_mod::lemma_sub_mod_noop(b, 1, m);
        if x > 0 {
            vstd::arithmetic::div_mod::lemma_small_mod((x - 1) as nat, m as nat);
        } else {
            vstd::arithmetic::div_mod::lemma_small_mod((m - 1) as nat, m as nat);
            vstd::arithmetic::div_mod::lemma_mod_sub_multiples_vanish(m - 1, m);
        }
    }
}

/// The count of handles in use is the number opened minus the number closed (plus where it
/// started), taken modulo the machine word as the counter wraps; so whenever that balance
/// is in range at the end, the count is exactly the balance, whatever happened on the way.
pub proof fn law_count_is_opened_minus_closed(n: nat, ops: Seq<bool>)
    requires
        n <= usize::MAX,
    ensures
        count_after_all(n, ops) == balance(n as int, ops) % word_values(),
        0 <= balance(n as int, ops) <= usize::MAX ==> count_after_all(n, ops) == balance(n as int, ops),
    decreases ops.len(),
{
    if ops.len() > 0 {
        law_count_is_opened_minus_closed(n, ops.drop_last());
        lemma_count_step(count_after_all(n, ops.drop_last()), balance(n as int, ops.drop_last()), ops.last());
    } else {
        vstd::arithmetic::div_mod::lemma_small_mod(n, word_values() as nat);
    }
    if 0 <= balance(n as int, ops) <= usize::MAX {
        vstd::arithmetic::div_mod::lemma_small_mod(balance(n as int, ops) as nat, word_values() as nat);
    }
}

/// The number of file handles currently in use by directory handles.
pub struct HandleCount {
    used: usize,
}

impl View for HandleCount {
    type V = nat;

    open spec fn view(&self) -> nat {
        self.count()
    }
}

impl HandleCount {
    /// The counter's value.
    pub closed spec fn count(&self) -> nat {
        self.used as nat
    }

    /// No handle in use.
    pub fn new() -> (h: HandleCount)
        ensures
            h@ == 0,
    {
        HandleCount { used: 0 }
    }

    /// Counts one more handle in use.
    pub fn inc_handles(&mut self) -> (prev: usize)
        ensures
            prev == old(self)@,
            final(self)@ == count_after(old(self)@, true),
    {
        let prev = self.used;
        self.used = prev.wrapping_add(1);
        prev
    }
}

impl Default for HandleCount {
    fn default() -> (h: HandleCount)
        ensures
            h@ == 0,
    {
        HandleCount::new()
    }
}

/// Return the number of file handles currently in use by Dir.
pub fn used_handles(handles: &HandleCount) -> (n: usize)
    ensures
        n == handles@,
{
    handles.used
}

/// Counts one handle less in use (only to be called when a directory listing is done) and
/// returns the count before. The counter wraps below zero.
pub fn dec_handles(handles: &mut HandleCount) -> (prev: usize)
    ensures
        prev == old(handles)@,
        final(handles)@ == count_after(old(handles)@, false),
{
    let prev = handles.used;
    handles.used = prev.wrapping_sub(1);
    prev
}

} // verus!
