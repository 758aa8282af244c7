//! The renderer abstraction and the pressed-key bookkeeping the window's
//! event loop feeds.

use vstd::prelude::*;

use crate::input::InputKey;

verus! {

/// Describes a renderer implementation.
#[derive(Debug)]
pub struct RendererInfo {
    pub name: &'static str,
    pub provides_opengl: bool,
    pub provides_vulkan: bool,
}

/// Whether a renderer satisfies the caller's requirements: each demanded
/// capability must be provided.
pub fn renderer_matches(info: &RendererInfo, needs_opengl: bool, needs_vulkan: bool) -> (r: bool)
    ensures
        r == ((!needs_opengl || info.provides_opengl) && (!needs_vulkan
            || info.provides_vulkan)),
{
    if needs_opengl && !info.provides_opengl {
        return false;
    }
    if needs_vulkan && !info.provides_vulkan {
        return false;
    }
    true
}

/// A renderer: shows RGBA8888 frames, pumps the window's events, and
/// answers key queries.
pub trait Renderer {
    fn submit_frame(&mut self, frame: &[u8], width: usize, height: usize);

    fn poll_events(&mut self);

    fn is_alive(&self) -> bool;

    fn is_key_down(&self, key: &InputKey) -> bool;

    fn set_title(&mut self, title: String);
}

/// The set of keys currently held down, fed by the window's key events: a
/// press adds a key that is absent, a release removes it.
pub struct KeyState {
    pub keys: Vec<InputKey>,
}

impl KeyState {
    /// The key is currently held down.
    pub open spec fn has_key(self, key: InputKey) -> bool {
        self.keys@.contains(key)
    }

    /// No key appears twice.
    pub open spec fn wf(self) -> bool {
        forall|i: int, j: int|
            0 <= i < j < self.keys@.len() ==> self.keys@[i] != self.keys@[j]
    }

    /// No key held.
    pub fn new() -> (r: Self)
        ensures
            r.wf(),
            forall|k: InputKey| !r.has_key(k),
    {
        KeyState { keys: Vec::new() }
    }

    /// Whether a key is held down.
    pub fn is_down(&self, key: InputKey) -> (r: bool)
        ensures
            r == self.has_key(key),
    {
        let mut i: usize = 0;
        while i < self.keys.len()
            invariant
                0 <= i <= self.keys@.len(),
                forall|k: int| 0 <= k < i ==> self.keys@[k] != key,
            decreases self.keys@.len() - i,
        {
            if self.keys[i] == key {
                assert(self.keys@.contains(key)) by {
                    assert(self.keys@[i as int] == key);
                }
                return true;
            }
            i = i + 1;
        }
        proof {
            if self.keys@.contains(key) {
                let w = choose|w: int| 0 <= w < self.keys@.len() && self.keys@[w] == key;
                assert(self.keys@[w] != key);
            }
        }
        false
    }

    /// Records a key going down; a key already held is not duplicated.
    pub fn press(&mut self, key: InputKey)
        requires
            old(self).wf(),
        ensures
            final(self).wf(),
            final(self).has_key(key),
            forall|k: InputKey| k != key ==> final(self).has_key(k) == old(self).has_key(k),
    {
        if !self.is_down(key) {
            self.keys.push(key);
            proof {
                assert(self.keys@[self.keys@.len() - 1] == key);
                assert forall|k: InputKey| k != key && old(self).has_key(k) implies self.has_key(
                    k,
                ) by {
                    let w = choose|w: int|
                        0 <= w < old(self).keys@.len() && old(self).keys@[w] == k;
                    assert(self.keys@[w] == k);
                }
                assert forall|k: InputKey| k != key && self.has_key(k) implies old(self).has_key(
                    k,
                ) by {
                    let w = choose|w: int| 0 <= w < self.keys@.len() && self.keys@[w] == k;
                    assert(old(self).keys@[w] == k);
                }
            }
        }
    }

    /// Records a key coming back up.
    pub fn release(&mut self, key: InputKey)
        requires
            old(self).wf(),
        ensures
            final(self).wf(),
            !final(self).has_key(key),
            forall|k: InputKey| k != key ==> final(self).has_key(k) == old(self).has_key(k),
    {
        let mut i: usize = 0;
        while i < self.keys.len()
            invariant
                *self == *old(self),
                old(self).wf(),
                0 <= i <= self.keys@.len(),
                forall|k: int| 0 <= k < i ==> self.keys@[k] != key,
            decreases self.keys@.len() - i,
        {
            if self.keys[i] == key {
                self.keys.remove(i);
                proof {
                    let newp = self.keys@;
                    let oldp = old(self).keys@;
                    assert(newp =~= oldp.subrange(0, i as int) + oldp.subrange(
                        i + 1,
                        oldp.len() as int,
                    ));
                    assert(!self.has_key(key)) by {
                        assert forall|j: int| 0 <= j < newp.len() implies newp[j] != key by {
                            if j < i {
                                assert(newp[j] == oldp[j]);
                            } else {
                                assert(newp[j] == oldp[j + 1]);
                            }
                        }
                        if self.has_key(key) {
                            let w = choose|w: int| 0 <= w < newp.len() && newp[w] == key;
                            assert(newp[w] != key);
                        }
                    }
                    assert forall|k: InputKey| k != key && old(self).has_key(k) implies self
                        .has_key(k) by {
                        let w = choose|w: int| 0 <= w < oldp.len() && oldp[w] == k;
                        if w < i {
                            assert(newp[w] == oldp[w]);
                        } else {
                            assert(w != i);
                            assert(newp[w - 1] == oldp[w]);
                        }
                    }
                    assert forall|k: InputKey| k != key && self.has_key(k) implies old(self)
                        .has_key(k) by {
                        let w = choose|w: int| 0 <= w < newp.len() && newp[w] == k;
                        if w < i {
                            assert(oldp[w] == newp[w]);
                        } else {
                            assert(oldp[w + 1] == newp[w]);
                        }
                    }
                    assert forall|a: int, b: int|
                        0 <= a < b < newp.len() implies newp[a] != newp[b] by {
                        let a0 = if a < i {
                            a
                        } else {
                            a + 1
                        };
                        let b0 = if b < i {
                            b
                        } else {
                            b + 1
                        };
                        assert(newp[a] == oldp[a0] && newp[b] == oldp[b0]);
                    }
                }
                return ;
            }
            i = i + 1;
        }
        proof {
            if self.has_key(key) {
                let w = choose|w: int| 0 <= w < self.keys@.len() && self.keys@[w] == key;
                assert(self.keys@[w] != key);
            }
        }
    }
}

} // verus!
