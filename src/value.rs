use vstd::prelude::*;

verus! {

broadcast use vstd::std_specs::vec::group_vec_axioms;

/// The mathematical model of a runtime value.
pub enum Val {
    Void,
    Integer(i64),
    Float(u64),
    Bool(bool),
    Symbol(Seq<char>),
    List(Seq<Val>),
    Lambda(Seq<Seq<char>>, Seq<Val>),
}

/// A runtime value. A float is held as its IEEE-754 bit pattern.
#[derive(Debug, PartialEq)]
pub enum Object {
    Integer(i64),
    Bool(bool),
    Float(u64),
    Void,
    Symbol(String),
    List(Vec<Object>),
    Lambda(Vec<String>, Vec<Object>),
}

pub open spec fn strings_view(v: Seq<String>) -> Seq<Seq<char>> {
    v.map_values(|s: String| s@)
}

impl Object {
    pub open spec fn view(self) -> Val
        decreases self,
    {
        match self {
            Object::Integer(n) => Val::Integer(n),
            Object::Bool(b) => Val::Bool(b),
            Object::Float(f) => Val::Float(f),
            Object::Void => Val::Void,
            Object::Symbol(s) => Val::Symbol(s@),
            Object::List(v) => Val::List(objects_view(v@)),
            Object::Lambda(ps, body) => Val::Lambda(strings_view(ps@), objects_view(body@)),
        }
    }
}

pub open spec fn objects_view(s: Seq<Object>) -> Seq<Val>
    decreases s,
{
    if s.len() == 0 {
        Seq::empty()
    } else {
        objects_view(s.drop_last()).push(s.last().view())
    }
}

pub proof fn lemma_objects_view(s: Seq<Object>)
    ensures
        objects_view(s).len() == s.len(),
        forall|i: int| 0 <= i < s.len() ==> #[trigger] objects_view(s)[i] == s[i]@,
    decreases s.len(),
{
    if s.len() > 0 {
        lemma_objects_view(s.drop_last());
    }
}

impl Object {
    /// A copy of the value, equal to it in the model.
    pub fn duplicate(&self) -> (r: Object)
        ensures
            r@ == self@,
        decreases self,
    {
        match self {
            Object::Integer(n) => Object::Integer(*n),
            Object::Bool(b) => Object::Bool(*b),
            Object::Float(f) => Object::Float(*f),
            Object::Void => Object::Void,
            Object::Symbol(s) => Object::Symbol(s.clone()),
            Object::List(v) => Object::List(duplicate_objects(v)),
            Object::Lambda(ps, body) => {
                let mut names: Vec<String> = Vec::new();
                let mut i: usize = 0;
                while i < ps.len()
                    invariant
                        i <= ps.len(),
                        strings_view(names@) == strings_view(ps@.take(i as int)),
                    decreases ps.len() - i,
                {
                    let ghost prev = names@;
                    names.push(ps[i].clone());
                    assert(ps@.take(i + 1) == ps@.take(i as int).push(ps@[i as int]));
                    assert(strings_view(names@) =~= strings_view(prev).push(ps@[i as int]@));
                    assert(strings_view(ps@.take(i + 1)) =~= strings_view(ps@.take(i as int)).push(ps@[i as int]@));
                    i += 1;
                }
                assert(ps@.take(ps.len() as int) == ps@);
                Object::Lambda(names, duplicate_objects(body))
            },
        }
    }
}

/// Copies every value of `v`, in order.
pub fn duplicate_objects(v: &Vec<Object>) -> (r: Vec<Object>)
    ensures
        objects_view(r@) == objects_view(v@),
    decreases v,
{
    let mut out: Vec<Object> = Vec::new();
    let mut i: usize = 0;
    while i < v.len()
        invariant
            i <= v.len(),
            objects_view(out@) == objects_view(v@.take(i as int)),
        decreases v.len() - i,
    {
        assert(decreases_to!(v => v[i as int]));
        let c = v[i].duplicate();
        let ghost prev = out@;
        out.push(c);
        assert(v@.take(i + 1).drop_last() == v@.take(i as int));
        assert(out@.drop_last() == prev);
        i += 1;
    }
    assert(v@.take(v.len() as int) == v@);
    out
}

} // verus!
