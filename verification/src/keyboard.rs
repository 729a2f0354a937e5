//! Deduplicating key-state sink.
//!
//! The sink tracks which key codes are currently held down and decides when
//! the OS-level key primitive must actually be invoked: a press of an
//! already-pressed key and a release of an already-released key are
//! swallowed. The unverified shell performs the OS call whenever a method
//! here returns true, and releases every still-pressed key on teardown.

use vstd::prelude::*;

verus! {

/// Tracks the set of currently pressed key codes.
pub struct Keyboard {
    pressed_keys: Vec<i32>,
}

/// How one `key_down` call relates the sink's state before and after it:
/// the OS primitive is invoked exactly when the key was not already down,
/// the key is down afterwards, and no other key changes.
pub open spec fn key_down_rel(pre: Keyboard, post: Keyboard, key: i32, emit: bool) -> bool {
    &&& emit == !pre.is_pressed_spec(key)
    &&& post.is_pressed_spec(key)
    &&& forall|k: i32| k != key ==> #[trigger] post.is_pressed_spec(k) == pre.is_pressed_spec(k)
}

/// How one `key_up` call relates the sink's state before and after it.
pub open spec fn key_up_rel(pre: Keyboard, post: Keyboard, key: i32, emit: bool) -> bool {
    &&& emit == pre.is_pressed_spec(key)
    &&& !post.is_pressed_spec(key)
    &&& forall|k: i32| k != key ==> #[trigger] post.is_pressed_spec(k) == pre.is_pressed_spec(k)
}

/// Pushing a key onto the list adds exactly that key to what it contains.
proof fn lemma_push_contains(s: Seq<i32>, x: i32)
    ensures
        forall|k: i32| #[trigger] s.push(x).contains(k) == (s.contains(k) || k == x),
{
    assert forall|k: i32| #[trigger] s.push(x).contains(k) == (s.contains(k) || k == x) by {
        if s.contains(k) {
            let j = choose|j: int| 0 <= j < s.len() && s[j] == k;
            assert(s.push(x)[j] == k);
        }
        if k == x {
            assert(s.push(x)[s.len() as int] == k);
        }
        if s.push(x).contains(k) && k != x {
            let j = choose|j: int| 0 <= j < s.push(x).len() && s.push(x)[j] == k;
            assert(j < s.len());
            assert(s[j] == k);
        }
    }
}

impl Keyboard {
    /// Each pressed key is recorded once.
    pub closed spec fn wf(&self) -> bool {
        self.pressed_keys@.no_duplicates()
    }

    /// Whether `key` is currently held down.
    pub closed spec fn is_pressed_spec(&self, key: i32) -> bool {
        self.pressed_keys@.contains(key)
    }

    /// A sink with every key released.
    pub fn new() -> (r: Self)
        ensures
            r.wf(),
            forall|k: i32| !(#[trigger] r.is_pressed_spec(k)),
    {
        Keyboard { pressed_keys: Vec::new() }
    }

    pub fn is_pressed(&self, key_code: &i32) -> (r: bool)
        ensures
            r == self.is_pressed_spec(*key_code),
    {
        let mut idx: usize = 0;
        while idx < self.pressed_keys.len()
            invariant
                idx <= self.pressed_keys@.len(),
                forall|j: int| 0 <= j < idx ==> self.pressed_keys@[j] != *key_code,
            decreases self.pressed_keys@.len() - idx,
        {
            if self.pressed_keys[idx] == *key_code {
                return true;
            }
            idx = idx + 1;
        }
        false
    }

    /// Marks `key_code` pressed; true means the caller must invoke the OS
    /// key-press primitive (the key was not already down).
    pub fn key_down(&mut self, key_code: &i32) -> (emit: bool)
        requires
            old(self).wf(),
        ensures
            final(self).wf(),
            key_down_rel(*old(self), *final(self), *key_code, emit),
    {
        if self.is_pressed(key_code) {
            false
        } else {
            let ghost pre = self.pressed_keys@;
            self.pressed_keys.push(*key_code);
            proof {
                lemma_push_contains(pre, *key_code);
                assert(self.pressed_keys@.no_duplicates()) by {
                    assert forall|i: int, j: int|
                        0 <= i < self.pressed_keys@.len() && 0 <= j
                            < self.pressed_keys@.len() && i != j implies self.pressed_keys@[i]
                        != self.pressed_keys@[j] by {
                        if i < pre.len() && j < pre.len() {
                            assert(pre[i] != pre[j]);
                        } else if j == pre.len() && i < pre.len() {
                            if pre[i] == *key_code {
                                assert(pre.contains(*key_code));
                            }
                        } else if i == pre.len() && j < pre.len() {
                            if pre[j] == *key_code {
                                assert(pre.contains(*key_code));
                            }
                        }
                    }
                }
            }
            true
        }
    }

    /// Marks `key_code` released; true means the caller must invoke the OS
    /// key-release primitive (the key was down).
    pub fn key_up(&mut self, key_code: &i32) -> (emit: bool)
        requires
            old(self).wf(),
        ensures
            final(self).wf(),
            key_up_rel(*old(self), *final(self), *key_code, emit),
    {
        let key = *key_code;
        let mut idx: usize = 0;
        while idx < self.pressed_keys.len()
            invariant
                old(self).wf(),
                self.pressed_keys@ == old(self).pressed_keys@,
                idx <= self.pressed_keys@.len(),
                forall|j: int| 0 <= j < idx ==> self.pressed_keys@[j] != key,
                key == *key_code,
            decreases self.pressed_keys@.len() - idx,
        {
            if self.pressed_keys[idx] == key {
                let ghost pre = self.pressed_keys@;
                self.pressed_keys.remove(idx);
                proof {
                    let post = self.pressed_keys@;
                    assert(post == pre.remove(idx as int));
                    assert forall|k: i32| post.contains(k) implies pre.contains(k) by {
                        let j = choose|j: int| 0 <= j < post.len() && post[j] == k;
                        if j < idx {
                            assert(pre[j] == k);
                        } else {
                            assert(pre[j + 1] == k);
                        }
                    }
                    assert(!post.contains(key)) by {
                        if post.contains(key) {
                            let j = choose|j: int|
                                0 <= j < post.len() && post[j] == key;
                            if j < idx {
                                assert(pre[j] == key);
                                assert(pre[idx as int] == key);
                            } else {
                                assert(pre[j + 1] == key);
                                assert(pre[idx as int] == key);
                            }
                        }
                    }
                    assert forall|k: i32| k != key && pre.contains(k) implies post.contains(
                        k,
                    ) by {
                        let j = choose|j: int| 0 <= j < pre.len() && pre[j] == k;
                        if j < idx {
                            assert(post[j] == k);
                        } else {
                            assert(j != idx);
                            assert(post[j - 1] == k);
                        }
                    }
                    assert(pre.contains(key)) by {
                        assert(pre[idx as int] == key);
                    }
                }
                return true;
            }
            idx = idx + 1;
        }
        proof {
            assert(!old(self).is_pressed_spec(key)) by {
                if self.pressed_keys@.contains(key) {
                    let j = choose|j: int|
                        0 <= j < self.pressed_keys@.len() && self.pressed_keys@[j] == key;
                }
            }
        }
        false
    }

    /// Releases every still-pressed key, handing back the codes whose OS
    /// key-release primitive the caller must now invoke, each exactly once
    /// (teardown must not leak stuck keys, nor release one twice).
    pub fn release_all(&mut self) -> (r: Vec<i32>)
        requires
            old(self).wf(),
        ensures
            final(self).wf(),
            forall|k: i32| !(#[trigger] final(self).is_pressed_spec(k)),
            forall|k: i32| #[trigger] r@.contains(k) == old(self).is_pressed_spec(k),
            r@.no_duplicates(),
    {
        let mut out: Vec<i32> = Vec::new();
        loop
            invariant
                self.pressed_keys@.no_duplicates(),
                out@.no_duplicates(),
                forall|k: i32|
                    !(#[trigger] self.pressed_keys@.contains(k) && out@.contains(k)),
                forall|k: i32|
                    #[trigger] old(self).is_pressed_spec(k) == (self.pressed_keys@.contains(k)
                        || out@.contains(k)),
            ensures
                self.pressed_keys@.len() == 0,
                out@.no_duplicates(),
                forall|k: i32|
                    #[trigger] old(self).is_pressed_spec(k) == (self.pressed_keys@.contains(k)
                        || out@.contains(k)),
            decreases self.pressed_keys@.len(),
        {
            let ghost pre = self.pressed_keys@;
            match self.pressed_keys.pop() {
                Some(k) => {
                    proof {
                        assert(pre[pre.len() - 1] == k);
                        assert(pre.contains(k));
                        assert forall|k2: i32| pre.contains(k2) implies (
                        self.pressed_keys@.contains(k2) || k2 == k) by {
                            let j = choose|j: int| 0 <= j < pre.len() && pre[j] == k2;
                            if j < pre.len() - 1 {
                                assert(self.pressed_keys@[j] == k2);
                            }
                        }
                        assert forall|k2: i32| self.pressed_keys@.contains(k2) implies
                        pre.contains(k2) by {
                            let j = choose|j: int|
                                0 <= j < self.pressed_keys@.len() && self.pressed_keys@[j]
                                    == k2;
                            assert(pre[j] == k2);
                        }
                    }
                    proof {
                        lemma_push_contains(out@, k);
                        // the popped key was still recorded as pressed, so
                        // by disjointness it is not in `out` yet, and the
                        // remaining prefix holds it nowhere else
                        assert(!out@.contains(k));
                        assert(!self.pressed_keys@.contains(k)) by {
                            if self.pressed_keys@.contains(k) {
                                let j = choose|j: int|
                                    0 <= j < self.pressed_keys@.len()
                                        && self.pressed_keys@[j] == k;
                                assert(pre[j] == k);
                                assert(pre[pre.len() - 1] == k);
                            }
                        }
                        assert(out@.push(k).no_duplicates()) by {
                            assert forall|a: int, b: int|
                                0 <= a < out@.push(k).len() && 0 <= b < out@.push(k).len()
                                    && a != b implies out@.push(k)[a] != out@.push(k)[b] by {
                                if a < out@.len() && b < out@.len() {
                                    assert(out@[a] != out@[b]);
                                } else if b == out@.len() && a < out@.len() {
                                    if out@[a] == k {
                                        assert(out@.contains(k));
                                    }
                                } else if a == out@.len() && b < out@.len() {
                                    if out@[b] == k {
                                        assert(out@.contains(k));
                                    }
                                }
                            }
                        }
                    }
                    let ghost old_out = out@;
                    out.push(k);
                    proof {
                        assert forall|k2: i32|
                            !(#[trigger] self.pressed_keys@.contains(k2) && out@.contains(
                                k2,
                            )) by {
                            if self.pressed_keys@.contains(k2) && out@.contains(k2) {
                                assert(pre.contains(k2));
                                assert(k2 != k);
                                assert(old_out.contains(k2));
                            }
                        }
                    }
                },
                None => {
                    break ;
                },
            }
        }
        proof {
            assert(self.pressed_keys@.len() == 0);
            assert forall|k: i32| !(#[trigger] self.is_pressed_spec(k)) by {
                if self.pressed_keys@.contains(k) {
                    let j = choose|j: int|
                        0 <= j < self.pressed_keys@.len() && self.pressed_keys@[j] == k;
                }
            }
        }
        out
    }
}

/// Deduplication: two consecutive presses of the same key invoke the OS
/// primitive at most once — the second press never does.
pub proof fn lemma_key_down_dedup(
    k0: Keyboard,
    k1: Keyboard,
    k2: Keyboard,
    key: i32,
    e1: bool,
    e2: bool,
)
    requires
        key_down_rel(k0, k1, key, e1),
        key_down_rel(k1, k2, key, e2),
    ensures
        !e2,
        e1 == !k0.is_pressed_spec(key),
{
}

/// A release between two presses makes both presses reach the OS: after
/// `key_up` the key is up, so the following `key_down` always emits.
pub proof fn lemma_key_up_then_down(
    k0: Keyboard,
    k1: Keyboard,
    k2: Keyboard,
    key: i32,
    e1: bool,
    e2: bool,
)
    requires
        key_up_rel(k0, k1, key, e1),
        key_down_rel(k1, k2, key, e2),
    ensures
        e2,
        e1 == k0.is_pressed_spec(key),
{
}

} // verus!
