//! In-process compositor extensions and their registry.
//!
//! Extensions run inside the render/event loop (animations, layouts,
//! custom handlers) and are registered at startup.
use vstd::prelude::*;

verus! {

#[verifier::external_type_specification]
#[verifier::external_body]
pub struct ExInstant(std::time::Instant);

/// A lifecycle hook of an extension, with the frame time it was given.
pub enum Hook {
    Init,
    PreFrame(std::time::Instant),
    PostFrame(std::time::Instant),
    Shutdown,
}

/// A compile-time extension of the compositor.
///
/// Each extension keeps, as ghost state, the hooks it has received so far
/// (`hooks_seen`); every hook appends itself to that record.
pub trait Extension: Send {
    /// The extension's name. The default says nothing of it; it lets an
    /// implementation written outside Verus compile, and such an
    /// implementation is not held to the contracts below.
    closed spec fn name_spec(&self) -> Seq<char> {
        Seq::empty()
    }

    /// The hooks received so far, oldest first. A verified implementation
    /// must define it: the default (always empty) cannot meet the hooks'
    /// contracts, and exists only so that an implementation written outside
    /// Verus compiles; such an implementation is not held to them.
    closed spec fn hooks_seen(&self) -> Seq<Hook> {
        Seq::empty()
    }

    /// Human-readable name.
    fn name(&self) -> (n: &str)
        ensures
            n@ == self.name_spec(),
    ;

    /// Called once at startup, before the first frame.
    fn init(&mut self)
        ensures
            final(self).hooks_seen() == old(self).hooks_seen().push(Hook::Init),
    ;

    /// Called at the start of every frame, before rendering.
    fn pre_frame(&mut self, now: std::time::Instant)
        ensures
            final(self).hooks_seen() == old(self).hooks_seen().push(Hook::PreFrame(now)),
    ;

    /// Called at the end of every frame, after rendering.
    fn post_frame(&mut self, now: std::time::Instant)
        ensures
            final(self).hooks_seen() == old(self).hooks_seen().push(Hook::PostFrame(now)),
    ;

    /// Called when the compositor shuts down.
    fn shutdown(&mut self)
        ensures
            final(self).hooks_seen() == old(self).hooks_seen().push(Hook::Shutdown),
    ;
}

/// `after` holds as many extensions as `before`, and each of them has
/// received `hook` exactly once more.
pub open spec fn each_received(
    before: Seq<Registered>,
    after: Seq<Registered>,
    hook: Hook,
) -> bool {
    &&& after.len() == before.len()
    &&& forall|i: int|
        0 <= i < before.len() ==> #[trigger] after[i].0.hooks_seen() == before[i].0.hooks_seen().push(
            hook,
        )
}

/// A full lifecycle over the registry (init, one frame, shutdown) leaves
/// every extension having received exactly those four hooks, in that order,
/// after whatever it had received before.
pub proof fn law_lifecycle_reaches_every_extension(
    s0: Seq<Registered>,
    s1: Seq<Registered>,
    s2: Seq<Registered>,
    s3: Seq<Registered>,
    s4: Seq<Registered>,
    pre: std::time::Instant,
    post: std::time::Instant,
)
    requires
        each_received(s0, s1, Hook::Init),
        each_received(s1, s2, Hook::PreFrame(pre)),
        each_received(s2, s3, Hook::PostFrame(post)),
        each_received(s3, s4, Hook::Shutdown),
    ensures
        s4.len() == s0.len(),
        forall|i: int|
            0 <= i < s0.len() ==> #[trigger] s4[i].0.hooks_seen() == s0[i].0.hooks_seen() + seq![
                Hook::Init,
                Hook::PreFrame(pre),
                Hook::PostFrame(post),
                Hook::Shutdown,
            ],
{
    assert forall|i: int| 0 <= i < s0.len() implies #[trigger] s4[i].0.hooks_seen() == s0[
        i
    ].0.hooks_seen() + seq![Hook::Init, Hook::PreFrame(pre), Hook::PostFrame(post), Hook::Shutdown] by {
        assert(s1[i].0.hooks_seen() == s0[i].0.hooks_seen().push(Hook::Init));
        assert(s2[i].0.hooks_seen() == s1[i].0.hooks_seen().push(Hook::PreFrame(pre)));
        assert(s3[i].0.hooks_seen() == s2[i].0.hooks_seen().push(Hook::PostFrame(post)));
        assert(s4[i].0.hooks_seen() == s3[i].0.hooks_seen().push(Hook::Shutdown));
        assert(s4[i].0.hooks_seen() =~= s0[i].0.hooks_seen() + seq![
            Hook::Init,
            Hook::PreFrame(pre),
            Hook::PostFrame(post),
            Hook::Shutdown,
        ]);
    }
}

/// A registered extension. The registry holds its boxed extensions in this
/// wrapper so that its contracts can speak of them one by one.
pub struct Registered(pub Box<dyn Extension>);

/// Appends `r` to `v`.
fn append(v: &mut Vec<Registered>, r: Registered)
    ensures
        final(v)@ == old(v)@.push(r),
        final(v)@.len() == old(v)@.len() + 1,
        forall|i: int| 0 <= i < old(v)@.len() ==> #[trigger] final(v)@[i] == old(v)@[i],
        final(v)@[old(v)@.len() as int] == r,
{
    v.push(r);
}

/// The registered extensions, in registration order.
pub struct ExtensionRegistry {
    pub extensions: Vec<Registered>,
    /// The hooks the registry has dispatched, in order, each with the index
    /// of the extension it went to.
    pub calls: Ghost<Seq<(int, Hook)>>,
}

/// Hook `hook` dispatched to extensions `0..n`, in that order.
pub open spec fn dispatched(n: int, hook: Hook) -> Seq<(int, Hook)> {
    Seq::new(n as nat, |i: int| (i, hook))
}

impl ExtensionRegistry {
    /// A registry with no extension.
    pub fn new() -> (r: Self)
        ensures
            r.extensions@.len() == 0,
            r.calls@.len() == 0,
    {
        ExtensionRegistry { extensions: Vec::new(), calls: Ghost(Seq::empty()) }
    }

    /// Registers `ext` after the ones already registered.
    pub fn register(&mut self, ext: Box<dyn Extension>)
        ensures
            final(self).extensions@ == old(self).extensions@.push(Registered(ext)),
            final(self).extensions@.len() == old(self).extensions@.len() + 1,
            forall|i: int| 0 <= i < old(self).extensions@.len() ==> #[trigger] final(self).extensions@[i] == old(
                self,
            ).extensions@[i],
            final(self).extensions@[old(self).extensions@.len() as int] == Registered(ext),
            final(self).calls == old(self).calls,
    {
        append(&mut self.extensions, Registered(ext));
    }

    /// Runs `init` of every extension once, in registration order.
    pub fn init_all(&mut self)
        ensures
            each_received(old(self).extensions@, final(self).extensions@, Hook::Init),
            final(self).calls@ == old(self).calls@ + dispatched(old(self).extensions@.len() as int, Hook::Init),
    {
        let mut i: usize = 0;
        while i < self.extensions.len()
            invariant
                i <= self.extensions@.len(),
                self.extensions@.len() == old(self).extensions@.len(),
                self.calls@ == old(self).calls@ + dispatched(i as int, Hook::Init),
                forall|j: int|
                    0 <= j < i ==> #[trigger] self.extensions@[j].0.hooks_seen() == old(
                        self,
                    ).extensions@[j].0.hooks_seen().push(Hook::Init),
                forall|j: int|
                    i <= j < self.extensions@.len() ==> #[trigger] self.extensions@[j] == old(
                        self,
                    ).extensions@[j],
            decreases self.extensions@.len() - i,
        {
            self.extensions[i].0.init();
            proof {
                self.calls@ = self.calls@.push((i as int, Hook::Init));
                assert(dispatched(i as int, Hook::Init).push((i as int, Hook::Init)) =~= dispatched(i + 1, Hook::Init));
            }
            i = i + 1;
        }
    }

    /// Runs `pre_frame` of every extension once, in registration order, all with the same `now`.
    pub fn pre_frame_all(&mut self, now: std::time::Instant)
        ensures
            each_received(old(self).extensions@, final(self).extensions@, Hook::PreFrame(now)),
            final(self).calls@ == old(self).calls@ + dispatched(old(self).extensions@.len() as int, Hook::PreFrame(now)),
    {
        let mut i: usize = 0;
        while i < self.extensions.len()
            invariant
                i <= self.extensions@.len(),
                self.extensions@.len() == old(self).extensions@.len(),
                self.calls@ == old(self).calls@ + dispatched(i as int, Hook::PreFrame(now)),
                forall|j: int|
                    0 <= j < i ==> #[trigger] self.extensions@[j].0.hooks_seen() == old(
                        self,
                    ).extensions@[j].0.hooks_seen().push(Hook::PreFrame(now)),
                forall|j: int|
                    i <= j < self.extensions@.len() ==> #[trigger] self.extensions@[j] == old(
                        self,
                    ).extensions@[j],
            decreases self.extensions@.len() - i,
        {
            self.extensions[i].0.pre_frame(now);
            proof {
                self.calls@ = self.calls@.push((i as int, Hook::PreFrame(now)));
                assert(dispatched(i as int, Hook::PreFrame(now)).push((i as int, Hook::PreFrame(now))) =~= dispatched(i + 1, Hook::PreFrame(now)));
            }
            i = i + 1;
        }
    }

    /// Runs `post_frame` of every extension once, in registration order, all with the same `now`.
    pub fn post_frame_all(&mut self, now: std::time::Instant)
        ensures
            each_received(old(self).extensions@, final(self).extensions@, Hook::PostFrame(now)),
            final(self).calls@ == old(self).calls@ + dispatched(old(self).extensions@.len() as int, Hook::PostFrame(now)),
    {
        let mut i: usize = 0;
        while i < self.extensions.len()
            invariant
                i <= self.extensions@.len(),
                self.extensions@.len() == old(self).extensions@.len(),
                self.calls@ == old(self).calls@ + dispatched(i as int, Hook::PostFrame(now)),
                forall|j: int|
                    0 <= j < i ==> #[trigger] self.extensions@[j].0.hooks_seen() == old(
                        self,
                    ).extensions@[j].0.hooks_seen().push(Hook::PostFrame(now)),
                forall|j: int|
                    i <= j < self.extensions@.len() ==> #[trigger] self.extensions@[j] == old(
                        self,
                    ).extensions@[j],
            decreases self.extensions@.len() - i,
        {
            self.extensions[i].0.post_frame(now);
            proof {
                self.calls@ = self.calls@.push((i as int, Hook::PostFrame(now)));
                assert(dispatched(i as int, Hook::PostFrame(now)).push((i as int, Hook::PostFrame(now))) =~= dispatched(i + 1, Hook::PostFrame(now)));
            }
            i = i + 1;
        }
    }

    /// Runs `shutdown` of every extension once, in registration order.
    pub fn shutdown_all(&mut self)
        ensures
            each_received(old(self).extensions@, final(self).extensions@, Hook::Shutdown),
            final(self).calls@ == old(self).calls@ + dispatched(old(self).extensions@.len() as int, Hook::Shutdown),
    {
        let mut i: usize = 0;
        while i < self.extensions.len()
            invariant
                i <= self.extensions@.len(),
                self.extensions@.len() == old(self).extensions@.len(),
                self.calls@ == old(self).calls@ + dispatched(i as int, Hook::Shutdown),
                forall|j: int|
                    0 <= j < i ==> #[trigger] self.extensions@[j].0.hooks_seen() == old(
                        self,
                    ).extensions@[j].0.hooks_seen().push(Hook::Shutdown),
                forall|j: int|
                    i <= j < self.extensions@.len() ==> #[trigger] self.extensions@[j] == old(
                        self,
                    ).extensions@[j],
            decreases self.extensions@.len() - i,
        {
            self.extensions[i].0.shutdown();
            proof {
                self.calls@ = self.calls@.push((i as int, Hook::Shutdown));
                assert(dispatched(i as int, Hook::Shutdown).push((i as int, Hook::Shutdown)) =~= dispatched(i + 1, Hook::Shutdown));
            }
            i = i + 1;
        }
    }

    /// The names of the registered extensions, in registration order.
    pub fn names(&self) -> (v: Vec<String>)
        ensures
            v@.len() == self.extensions@.len(),
            forall|i: int|
                0 <= i < v@.len() ==> #[trigger] v@[i]@ == self.extensions@[i].0.name_spec(),
    {
        let mut v: Vec<String> = Vec::new();
        let mut i: usize = 0;
        while i < self.extensions.len()
            invariant
                i <= self.extensions@.len(),
                v@.len() == i,
                forall|j: int|
                    0 <= j < i ==> #[trigger] v@[j]@ == self.extensions@[j].0.name_spec(),
            decreases self.extensions@.len() - i,
        {
            v.push(String::from_str(self.extensions[i].0.name()));
            i = i + 1;
        }
        v
    }
}

impl Default for ExtensionRegistry {
    fn default() -> (r: Self)
        ensures
            r.extensions@.len() == 0,
            r.calls@.len() == 0,
    {
        Self::new()
    }
}

/// Example extension counting frames. Use as a template for real ones.
pub struct LogFrameCount {
    count: u64,
    seen: Ghost<Seq<Hook>>,
}

impl LogFrameCount {
    /// Frames seen so far (wrapping).
    pub closed spec fn frames(&self) -> u64 {
        self.count
    }

    /// A counter at zero that has received no hook yet.
    pub fn new() -> (e: Self)
        ensures
            e.frames() == 0,
            e.hooks_seen() == Seq::<Hook>::empty(),
    {
        LogFrameCount { count: 0, seen: Ghost(Seq::empty()) }
    }

    /// Frames seen so far (wrapping).
    pub fn count(&self) -> (n: u64)
        ensures
            n == self.frames(),
    {
        self.count
    }
}

impl Default for LogFrameCount {
    fn default() -> (e: Self)
        ensures
            e.frames() == 0,
            e.hooks_seen() == Seq::<Hook>::empty(),
    {
        Self::new()
    }
}

impl Extension for LogFrameCount {
    closed spec fn name_spec(&self) -> Seq<char> {
        "log-frame-count"@
    }

    closed spec fn hooks_seen(&self) -> Seq<Hook> {
        self.seen@
    }

    fn name(&self) -> (n: &str)
        ensures
            n@ == "log-frame-count"@,
    {
        "log-frame-count"
    }

    fn init(&mut self)
        ensures
            final(self).frames() == old(self).frames(),
    {
        proof {
            self.seen@ = self.seen@.push(Hook::Init);
        }
    }

    /// Counts the frame (wrapping around past `u64::MAX`).
    fn pre_frame(&mut self, now: std::time::Instant)
        ensures
            final(self).frames() == (if old(self).frames() == u64::MAX {
                0
            } else {
                (old(self).frames() + 1) as u64
            }),
    {
        self.count = if self.count == u64::MAX {
            0
        } else {
            self.count + 1
        };
        proof {
            self.seen@ = self.seen@.push(Hook::PreFrame(now));
        }
    }

    fn post_frame(&mut self, now: std::time::Instant)
        ensures
            final(self).frames() == old(self).frames(),
    {
        proof {
            self.seen@ = self.seen@.push(Hook::PostFrame(now));
        }
    }

    fn shutdown(&mut self)
        ensures
            final(self).frames() == old(self).frames(),
    {
        proof {
            self.seen@ = self.seen@.push(Hook::Shutdown);
        }
    }
}

} // verus!
