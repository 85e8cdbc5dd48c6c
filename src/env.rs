use vstd::prelude::*;
use crate::value::{Object, Val};

verus! {

/// The model of one frame: its parent's index and its own bindings.
pub struct Frame {
    pub parent: Option<int>,
    pub defs: Map<Seq<char>, Val>,
}

/// The bindings that a list of entries describes; a later entry wins over an
/// earlier one of the same name.
pub open spec fn defs_map(s: Seq<(String, Object)>) -> Map<Seq<char>, Val>
    decreases s.len(),
{
    if s.len() == 0 {
        Map::empty()
    } else {
        defs_map(s.drop_last()).insert(s.last().0@, s.last().1@)
    }
}

proof fn lemma_defs_found(s: Seq<(String, Object)>, i: int, k: Seq<char>)
    requires
        0 <= i < s.len(),
        s[i].0@ == k,
        forall|j: int| i < j < s.len() ==> s[j].0@ != k,
    ensures
        defs_map(s).contains_key(k),
        defs_map(s)[k] == s[i].1@,
    decreases s.len(),
{
    if i < s.len() - 1 {
        lemma_defs_found(s.drop_last(), i, k);
    }
}

proof fn lemma_defs_absent(s: Seq<(String, Object)>, k: Seq<char>)
    requires
        forall|j: int| 0 <= j < s.len() ==> s[j].0@ != k,
    ensures
        !defs_map(s).contains_key(k),
    decreases s.len(),
{
    if s.len() > 0 {
        lemma_defs_absent(s.drop_last(), k);
    }
}

proof fn lemma_defs_update(s: Seq<(String, Object)>, i: int, e: (String, Object))
    requires
        0 <= i < s.len(),
        s[i].0@ == e.0@,
        forall|j: int| i < j < s.len() ==> s[j].0@ != e.0@,
    ensures
        defs_map(s.update(i, e)) == defs_map(s).insert(e.0@, e.1@),
    decreases s.len(),
{
    if i == s.len() - 1 {
        assert(s.update(i, e).drop_last() == s.drop_last());
    } else {
        lemma_defs_update(s.drop_last(), i, e);
        assert(s.update(i, e).drop_last() == s.drop_last().update(i, e));
        assert(defs_map(s.update(i, e)) =~= defs_map(s).insert(e.0@, e.1@));
    }
}

/// One frame: an optional parent, given by its index in the arena, and the
/// frame's own bindings.
pub struct Env {
    pub parent: Option<usize>,
    pub defs: Vec<(String, Object)>,
}

impl Env {
    pub open spec fn view(&self) -> Frame {
        Frame {
            parent: match self.parent {
                Some(p) => Some(p as int),
                None => None,
            },
            defs: defs_map(self.defs@),
        }
    }
}

/// A frame is named by its index in the arena.
pub type EnvType = usize;

/// The frame that a fresh arena starts with.
pub const ROOT: EnvType = 0;

/// Every frame's parent stands before it, so the parent links form a tree
/// without cycles.
pub open spec fn frames_wf(st: Seq<Frame>) -> bool {
    forall|i: int|
        0 <= i < st.len() ==> match #[trigger] st[i].parent {
            Some(p) => 0 <= p < i,
            None => true,
        }
}

/// What `name` is bound to, seen from frame `env`: its binding in the nearest
/// frame along the parent chain that has one.
pub open spec fn resolve_spec(st: Seq<Frame>, env: int, name: Seq<char>) -> Option<Val>
    decreases env,
{
    if !(0 <= env < st.len()) {
        None
    } else if st[env].defs.contains_key(name) {
        Some(st[env].defs[name])
    } else {
        match st[env].parent {
            Some(p) => if 0 <= p < env {
                resolve_spec(st, p, name)
            } else {
                None
            },
            None => None,
        }
    }
}

/// The position of the last entry named `name`.
fn find_last(defs: &Vec<(String, Object)>, name: &String) -> (r: Option<usize>)
    ensures
        match r {
            Some(i) => {
                &&& i < defs@.len()
                &&& defs@[i as int].0@ == name@
                &&& forall|j: int| i < j < defs@.len() ==> defs@[j].0@ != name@
            },
            None => forall|j: int| 0 <= j < defs@.len() ==> defs@[j].0@ != name@,
        },
{
    let mut i: usize = defs.len();
    while i > 0
        invariant
            i <= defs.len(),
            forall|j: int| i <= j < defs@.len() ==> defs@[j].0@ != name@,
        decreases i,
    {
        i -= 1;
        if defs[i].0 == *name {
            return Some(i);
        }
    }
    None
}

/// All frames of an interpreter, root first.
pub struct Envs {
    pub frames: Vec<Env>,
}

impl Envs {
    pub open spec fn view(&self) -> Seq<Frame> {
        self.frames@.map_values(|e: Env| e@)
    }

    pub open spec fn wf(&self) -> bool {
        frames_wf(self@)
    }

    /// An arena that holds one empty frame without a parent, at `ROOT`.
    pub fn new() -> (r: Envs)
        ensures
            r.wf(),
            r@ == seq![Frame { parent: None, defs: Map::empty() }],
    {
        let mut frames: Vec<Env> = Vec::new();
        frames.push(Env { parent: None, defs: Vec::new() });
        let r = Envs { frames };
        assert(defs_map(Seq::<(String, Object)>::empty()) == Map::<Seq<char>, Val>::empty());
        assert(r@ =~= seq![Frame { parent: None, defs: Map::empty() }]);
        r
    }

    pub fn len(&self) -> (r: usize)
        ensures
            r == self@.len(),
    {
        self.frames.len()
    }

    /// The value bound to `name` in the nearest frame, from `env` up the
    /// parent chain, that binds it; `None` once the chain is exhausted.
    pub fn resolve(&self, env: EnvType, name: &String) -> (r: Option<&Object>)
        requires
            self.wf(),
            env < self@.len(),
        ensures
            match r {
                Some(o) => resolve_spec(self@, env as int, name@) == Some(o@),
                None => resolve_spec(self@, env as int, name@) is None,
            },
    {
        let mut cur: usize = env;
        loop
            invariant
                self.wf(),
                cur < self@.len(),
                resolve_spec(self@, cur as int, name@) == resolve_spec(self@, env as int, name@),
            decreases cur,
        {
            let frame = &self.frames[cur];
            assert(self@[cur as int] == frame@);
            match find_last(&frame.defs, name) {
                Some(i) => {
                    proof {
                        lemma_defs_found(frame.defs@, i as int, name@);
                    }
                    return Some(&frame.defs[i].1);
                },
                None => {
                    proof {
                        lemma_defs_absent(frame.defs@, name@);
                    }
                },
            }
            match frame.parent {
                Some(p) => {
                    assert(self@[cur as int].parent == Some(p as int));
                    cur = p;
                },
                None => {
                    return None;
                },
            }
        }
    }

    /// Binds `name` to `value` in frame `env` itself, replacing an earlier
    /// binding of that name there; no other frame changes.
    pub fn define(&mut self, env: EnvType, name: String, value: Object)
        requires
            old(self).wf(),
            env < old(self)@.len(),
        ensures
            final(self).wf(),
            final(self)@ == old(self)@.update(
                env as int,
                Frame {
                    parent: old(self)@[env as int].parent,
                    defs: old(self)@[env as int].defs.insert(name@, value@),
                },
            ),
    {
        let ghost before = self@;
        let ghost old_defs = self.frames@[env as int].defs@;
        let ghost entry = (name, value);
        match find_last(&self.frames[env].defs, &name) {
            Some(i) => {
                proof {
                    lemma_defs_update(old_defs, i as int, entry);
                }
                self.frames[env].defs.set(i, (name, value));
            },
            None => {
                proof {
                    lemma_defs_absent(old_defs, name@);
                    assert(old_defs.push(entry).drop_last() == old_defs);
                }
                self.frames[env].defs.push((name, value));
            },
        }
        assert(self@ =~= before.update(
            env as int,
            Frame {
                parent: before[env as int].parent,
                defs: before[env as int].defs.insert(entry.0@, entry.1@),
            },
        ));
    }
}

impl Envs {
    /// Adds a frame with the given parent and bindings, and returns its index.
    pub fn push_frame(&mut self, parent: EnvType, defs: Vec<(String, Object)>) -> (r: EnvType)
        requires
            old(self).wf(),
            parent < old(self)@.len(),
        ensures
            final(self).wf(),
            r == old(self)@.len(),
            final(self)@ == old(self)@.push(Frame { parent: Some(parent as int), defs: defs_map(defs@) }),
    {
        let r = self.frames.len();
        self.frames.push(Env { parent: Some(parent), defs });
        assert(self@ =~= old(self)@.push(Frame { parent: Some(parent as int), defs: defs_map(defs@) }));
        r
    }

    /// Drops every frame from index `len` on.
    pub fn drop_frames(&mut self, len: usize)
        requires
            old(self).wf(),
            len <= old(self)@.len(),
        ensures
            final(self).wf(),
            final(self)@ == old(self)@.take(len as int),
    {
        self.frames.truncate(len);
        assert(self@ =~= old(self)@.take(len as int));
    }
}

} // verus!
