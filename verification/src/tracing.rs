use vstd::prelude::*;

use crate::algos::{argsort_spec, cumsum_spec, iota_along_val, sort_spec};
use crate::literals::{count_literal, count_text, count_text_of, count_value, lit_text, lit_value, literal_text, literal_value, pow10, range_count, range_count_of};
use crate::batch::{align_val, bcompare_val, bewise_val, bmatmul_val, bval_ok, bvals_view, per_of, stack_val};
use crate::graph::{broadcast_shape, broadcast_spec, copy_shape, per_shape, BVal, BValV, Dtype, Val};
use crate::parser::{decl_view, decls_view, expr_view, exprs_view, named_view, op_name_spec, Decl, DeclV, Expr, ExprV, Program};
use crate::strs::{chars_of, str_eq, string_from_chars};
use crate::table::strings_view;
use crate::trace::{constant_val, convert_val, ewise_val, select_val, zeros_val, grows, unary_val, GraphV, TraceError, TraceErrorV, Tracer};

verus! {

/// A traced value of the language: a tensor, or a record of named values.
#[derive(Debug)]
pub enum TVal {
    Tensor(BVal),
    Record(Vec<(String, TVal)>),
}

/// A traced value as specifications see it.
pub enum TValV {
    Tensor(BValV),
    Record(Seq<(Seq<char>, TValV)>),
}

pub open spec fn tval_view(t: TVal) -> TValV
    decreases t,
{
    match t {
        TVal::Tensor(b) => TValV::Tensor(b@),
        TVal::Record(fs) => TValV::Record(tfields_view(fs@)),
    }
}

pub open spec fn tfields_view(s: Seq<(String, TVal)>) -> Seq<(Seq<char>, TValV)>
    decreases s,
{
    if s.len() == 0 {
        seq![]
    } else {
        tfields_view(s.drop_last()).push((s.last().0@, tval_view(s.last().1)))
    }
}

/// Whether the tracer can use a tensor: its batch dimensions are among its dimensions,
/// its node exists, and its rank is below 2^31.
pub open spec fn usable(g: GraphV, b: BValV) -> bool {
    b.bdims <= b.val.shape.len() && b.val.id < g.nodes.len() && b.val.shape.len() < 0x8000_0000
}

/// The value of the first field named `name` from position `i` on.
pub open spec fn field_of(fs: Seq<(Seq<char>, TValV)>, name: Seq<char>, i: int) -> Option<TValV>
    decreases fs.len() - i,
{
    if i < 0 || i >= fs.len() {
        None
    } else if fs[i].0 == name {
        Some(fs[i].1)
    } else {
        field_of(fs, name, i + 1)
    }
}

/// An elementwise unary operation on a value: on each tensor of a record.
pub open spec fn tunary_spec(g: GraphV, name: Seq<char>, v: TValV) -> Result<(GraphV, TValV), TraceErrorV>
    decreases v, 0int,
{
    match v {
        TValV::Tensor(b) => if !usable(g, b) {
            Err(TraceError::Unusable)
        } else {
            Ok((unary_val(g, name, b.val).0, TValV::Tensor(BValV { val: unary_val(g, name, b.val).1, bdims: b.bdims })))
        },
        TValV::Record(fs) => match tunary_fields(g, name, fs, 0) {
            Err(e) => Err(e),
            Ok((g1, out)) => Ok((g1, TValV::Record(out))),
        },
    }
}

pub open spec fn tunary_fields(g: GraphV, name: Seq<char>, fs: Seq<(Seq<char>, TValV)>, i: int) -> Result<
    (GraphV, Seq<(Seq<char>, TValV)>),
    TraceErrorV,
>
    decreases fs, fs.len() - i,
{
    if i < 0 || i >= fs.len() {
        Ok((g, seq![]))
    } else {
        match tunary_spec(g, name, fs[i].1) {
            Err(e) => Err(e),
            Ok((g1, r)) => match tunary_fields(g1, name, fs, i + 1) {
                Err(e) => Err(e),
                Ok((g2, rest)) => Ok((g2, seq![(fs[i].0, r)] + rest)),
            },
        }
    }
}

/// An elementwise binary operation on values: tensors combine; records combine field by
/// field with a record of the same fields, or each field with a tensor.
pub open spec fn tmap2_spec(g: GraphV, name: Seq<char>, a: TValV, b: TValV) -> Result<(GraphV, TValV), TraceErrorV>
    decreases a, b, 0int,
{
    match (a, b) {
        (TValV::Tensor(x), TValV::Tensor(y)) => if !usable(g, x) || !usable(g, y) {
            Err(TraceError::Unusable)
        } else {
            match bewise_val(g, name, x, y) {
                Err(e) => Err(e),
                Ok((g1, v)) => Ok((g1, TValV::Tensor(v))),
            }
        },
        (TValV::Record(ra), TValV::Record(rb)) => if ra.len() != rb.len() {
            Err(TraceError::RecordFieldCount(ra.len() as usize, rb.len() as usize))
        } else {
            match map2_fields(g, name, ra, rb, 0) {
                Err(e) => Err(e),
                Ok((g1, out)) => Ok((g1, TValV::Record(out))),
            }
        },
        (TValV::Record(ra), _) => match map_left(g, name, ra, b, 0) {
            Err(e) => Err(e),
            Ok((g1, out)) => Ok((g1, TValV::Record(out))),
        },
        (_, TValV::Record(rb)) => match map_right(g, name, a, rb, 0) {
            Err(e) => Err(e),
            Ok((g1, out)) => Ok((g1, TValV::Record(out))),
        },
    }
}

/// Each field of `ra` from position `i` on, combined with the field of `rb` of its name.
pub open spec fn map2_fields(
    g: GraphV,
    name: Seq<char>,
    ra: Seq<(Seq<char>, TValV)>,
    rb: Seq<(Seq<char>, TValV)>,
    i: int,
) -> Result<(GraphV, Seq<(Seq<char>, TValV)>), TraceErrorV>
    decreases ra, rb, ra.len() - i,
{
    if i < 0 || i >= ra.len() {
        Ok((g, seq![]))
    } else {
        match field_of(rb, ra[i].0, 0) {
            None => Err(TraceError::MissingField(ra[i].0)),
            Some(bv) => match tmap2_spec(g, name, ra[i].1, bv) {
                Err(e) => Err(e),
                Ok((g1, r)) => match map2_fields(g1, name, ra, rb, i + 1) {
                    Err(e) => Err(e),
                    Ok((g2, rest)) => Ok((g2, seq![(ra[i].0, r)] + rest)),
                },
            },
        }
    }
}

/// Each field of `ra` from position `i` on, combined with `b`.
pub open spec fn map_left(g: GraphV, name: Seq<char>, ra: Seq<(Seq<char>, TValV)>, b: TValV, i: int) -> Result<
    (GraphV, Seq<(Seq<char>, TValV)>),
    TraceErrorV,
>
    decreases ra, b, ra.len() - i,
{
    if i < 0 || i >= ra.len() {
        Ok((g, seq![]))
    } else {
        match tmap2_spec(g, name, ra[i].1, b) {
            Err(e) => Err(e),
            Ok((g1, r)) => match map_left(g1, name, ra, b, i + 1) {
                Err(e) => Err(e),
                Ok((g2, rest)) => Ok((g2, seq![(ra[i].0, r)] + rest)),
            },
        }
    }
}

/// `a` combined with each field of `rb` from position `i` on.
pub open spec fn map_right(g: GraphV, name: Seq<char>, a: TValV, rb: Seq<(Seq<char>, TValV)>, i: int) -> Result<
    (GraphV, Seq<(Seq<char>, TValV)>),
    TraceErrorV,
>
    decreases a, rb, rb.len() - i,
{
    if i < 0 || i >= rb.len() {
        Ok((g, seq![]))
    } else {
        match tmap2_spec(g, name, a, rb[i].1) {
            Err(e) => Err(e),
            Ok((g1, r)) => match map_right(g1, name, a, rb, i + 1) {
                Err(e) => Err(e),
                Ok((g2, rest)) => Ok((g2, seq![(rb[i].0, r)] + rest)),
            },
        }
    }
}

pub proof fn lemma_tfields_index(s: Seq<(String, TVal)>)
    ensures
        tfields_view(s).len() == s.len(),
        forall|i: int| 0 <= i < s.len() ==> #[trigger] tfields_view(s)[i] == (s[i].0@, tval_view(s[i].1)),
    decreases s.len(),
{
    if s.len() > 0 {
        lemma_tfields_index(s.drop_last());
    }
}

/// `x` in front of `rest`, as specifications see it.
pub proof fn lemma_tfields_cons(x: (String, TVal), rest: Seq<(String, TVal)>)
    ensures
        tfields_view(seq![x] + rest) == seq![(x.0@, tval_view(x.1))] + tfields_view(rest),
{
    lemma_tfields_index(seq![x] + rest);
    lemma_tfields_index(rest);
    assert(tfields_view(seq![x] + rest) =~= seq![(x.0@, tval_view(x.1))] + tfields_view(rest));
}

pub fn bval_copy(b: &BVal) -> (r: BVal)
    ensures
        r@ == b@,
{
    BVal { val: Val { id: b.val.id, shape: copy_shape(b.val.shape.as_slice()), dtype: b.val.dtype }, bdims: b.bdims }
}

/// A copy of a traced value.
pub fn tval_copy(v: &TVal) -> (r: TVal)
    ensures
        tval_view(r) == tval_view(*v),
    decreases v,
{
    match v {
        TVal::Tensor(b) => TVal::Tensor(bval_copy(b)),
        TVal::Record(fs) => {
            let mut out: Vec<(String, TVal)> = Vec::new();
            let mut i: usize = 0;
            proof {
                lemma_tfields_index(fs@);
            }
            while i < fs.len()
                invariant
                    *v == TVal::Record(*fs),
                    i <= fs@.len(),
                    out@.len() == i,
                    forall|k: int| 0 <= k < i ==> #[trigger] tfields_view(out@)[k] == tfields_view(fs@)[k],
                    tfields_view(fs@).len() == fs@.len(),
                    forall|k: int| 0 <= k < fs@.len() ==> #[trigger] tfields_view(fs@)[k] == (fs@[k].0@, tval_view(fs@[k].1)),
                decreases fs.len() - i,
            {
                let item = &fs[i];
                proof {
                    assert(decreases_to!(*v => (*v)->Record_0));
                    assert(decreases_to!(*fs => fs@));
                    assert(decreases_to!(fs@ => fs@[i as int]));
                    assert(decreases_to!(fs@[i as int] => fs@[i as int].1));
                    assert(decreases_to!(*v => item.1));
                }
                let c = tval_copy(&item.1);
                let ghost before = out@;
                out.push((fs[i].0.clone(), c));
                proof {
                    lemma_tfields_index(before);
                    lemma_tfields_index(out@);
                    assert forall|k: int| 0 <= k < i + 1 implies #[trigger] tfields_view(out@)[k] == tfields_view(fs@)[k] by {
                        if k < i {
                            assert(out@[k] == before[k]);
                            assert(tfields_view(before)[k] == tfields_view(fs@)[k]);
                        } else {
                            assert(out@[k].0@ == fs@[k].0@);
                            assert(tval_view(out@[k].1) == tval_view(fs@[k].1));
                        }
                    }
                }
                i = i + 1;
            }
            proof {
                lemma_tfields_index(out@);
            }
            assert(tfields_view(out@) =~= tfields_view(fs@));
            TVal::Record(out)
        },
    }
}

impl Tracer {
    /// Whether the tracer can use a tensor.
    pub fn usable(&self, b: &BVal) -> (r: bool)
        ensures
            r == usable(self.graph(), b@),
    {
        b.bdims <= b.val.shape.len() && b.val.id < self.nodes.len() && b.val.shape.len() < 0x8000_0000
    }

    /// An elementwise unary operation on a value: on each tensor of a record.
    pub fn tunary(&mut self, name: &str, v: &TVal) -> (r: Result<TVal, TraceError>)
        requires
            old(self).wf(),
        ensures
            final(self).wf(),
            match tunary_spec(old(self).graph(), name@, tval_view(*v)) {
                Ok((g, t)) => r matches Ok(rt) && tval_view(rt) == t && final(self).graph() == g,
                Err(e) => r matches Err(re) && re@ == e,
            },
            final(self).inputs == old(self).inputs,
            final(self).rng == old(self).rng,
            grows(old(self).nodes@, final(self).nodes@),
        decreases v, 0int,
    {
        match v {
            TVal::Tensor(b) => {
                if !self.usable(b) {
                    return Err(TraceError::Unusable);
                }
                let val = self.unary(name, &b.val);
                Ok(TVal::Tensor(BVal { val, bdims: b.bdims }))
            },
            TVal::Record(fs) => {
                proof {
                    lemma_tfields_index(fs@);
                }
                match self.tunary_fields(name, fs, 0) {
                    Err(e) => Err(e),
                    Ok(out) => Ok(TVal::Record(out)),
                }
            },
        }
    }

    fn tunary_fields(&mut self, name: &str, fs: &Vec<(String, TVal)>, i: usize) -> (r: Result<Vec<(String, TVal)>, TraceError>)
        requires
            old(self).wf(),
            i <= fs@.len(),
        ensures
            final(self).wf(),
            match tunary_fields(old(self).graph(), name@, tfields_view(fs@), i as int) {
                Ok((g, t)) => r matches Ok(rt) && tfields_view(rt@) == t && final(self).graph() == g,
                Err(e) => r matches Err(re) && re@ == e,
            },
            final(self).inputs == old(self).inputs,
            final(self).rng == old(self).rng,
            grows(old(self).nodes@, final(self).nodes@),
        decreases fs, fs@.len() - i,
    {
        proof {
            lemma_tfields_index(fs@);
        }
        if i >= fs.len() {
            let out: Vec<(String, TVal)> = Vec::new();
            assert(tfields_view(out@) =~= seq![]);
            return Ok(out);
        }
        let r = match self.tunary(name, &fs[i].1) {
            Err(e) => {
                return Err(e);
            },
            Ok(r) => r,
        };
        let mut rest = match self.tunary_fields(name, fs, i + 1) {
            Err(e) => {
                return Err(e);
            },
            Ok(rest) => rest,
        };
        let ghost rest0 = rest@;
        let x = (fs[i].0.clone(), r);
        let ghost xv = x;
        rest.insert(0, x);
        proof {
            assert(rest@ =~= seq![xv] + rest0);
            lemma_tfields_cons(xv, rest0);
        }
        Ok(rest)
    }
}


/// The position of the first field of `fs` named `name`.
pub fn field_index(fs: &Vec<(String, TVal)>, name: &str) -> (r: Option<usize>)
    ensures
        match r {
            Some(j) => j < fs@.len() && field_of(tfields_view(fs@), name@, 0) == Some(tval_view(fs@[j as int].1)),
            None => field_of(tfields_view(fs@), name@, 0) is None,
        },
{
    let ghost fv = tfields_view(fs@);
    proof {
        lemma_tfields_index(fs@);
    }
    let mut i: usize = 0;
    while i < fs.len()
        invariant
            i <= fs@.len(),
            fv == tfields_view(fs@),
            fv.len() == fs@.len(),
            forall|k: int| 0 <= k < fs@.len() ==> #[trigger] fv[k] == (fs@[k].0@, tval_view(fs@[k].1)),
            field_of(fv, name@, 0) == field_of(fv, name@, i as int),
        decreases fs.len() - i,
    {
        assert(fv[i as int] == (fs@[i as int].0@, tval_view(fs@[i as int].1)));
        if str_eq(fs[i].0.as_str(), name) {
            return Some(i);
        }
        i = i + 1;
    }
    None
}

impl Tracer {
    /// An elementwise binary operation on values: tensors combine; records combine field
    /// by field with a record of the same fields, or each field with a tensor.
    pub fn tmap2(&mut self, name: &str, a: &TVal, b: &TVal) -> (r: Result<TVal, TraceError>)
        requires
            old(self).wf(),
        ensures
            final(self).wf(),
            match tmap2_spec(old(self).graph(), name@, tval_view(*a), tval_view(*b)) {
                Ok((g, t)) => r matches Ok(rt) && tval_view(rt) == t && final(self).graph() == g,
                Err(e) => r matches Err(re) && re@ == e,
            },
            final(self).inputs == old(self).inputs,
            final(self).rng == old(self).rng,
            grows(old(self).nodes@, final(self).nodes@),
        decreases a, b, 0int,
    {
        match (a, b) {
            (TVal::Tensor(x), TVal::Tensor(y)) => {
                if !self.usable(x) || !self.usable(y) {
                    return Err(TraceError::Unusable);
                }
                match self.bewise(name, bval_copy(x), bval_copy(y)) {
                    Err(e) => Err(e),
                    Ok(v) => Ok(TVal::Tensor(v)),
                }
            },
            (TVal::Record(ra), TVal::Record(rb)) => {
                proof {
                    lemma_tfields_index(ra@);
                    lemma_tfields_index(rb@);
                }
                if ra.len() != rb.len() {
                    return Err(TraceError::RecordFieldCount(ra.len(), rb.len()));
                }
                proof {
                    assert(decreases_to!(*a => (*a)->Record_0));
                }
                match self.map2_fields(name, ra, rb, 0) {
                    Err(e) => Err(e),
                    Ok(out) => Ok(TVal::Record(out)),
                }
            },
            (TVal::Record(ra), _) => {
                proof {
                    lemma_tfields_index(ra@);
                    assert(decreases_to!(*a => (*a)->Record_0));
                }
                match self.map_left(name, ra, b, 0) {
                    Err(e) => Err(e),
                    Ok(out) => Ok(TVal::Record(out)),
                }
            },
            (_, TVal::Record(rb)) => {
                proof {
                    lemma_tfields_index(rb@);
                    assert(decreases_to!(*b => (*b)->Record_0));
                }
                match self.map_right(name, a, rb, 0) {
                    Err(e) => Err(e),
                    Ok(out) => Ok(TVal::Record(out)),
                }
            },
        }
    }

    fn map2_fields(&mut self, name: &str, ra: &Vec<(String, TVal)>, rb: &Vec<(String, TVal)>, i: usize) -> (r: Result<
        Vec<(String, TVal)>,
        TraceError,
    >)
        requires
            old(self).wf(),
            i <= ra@.len(),
        ensures
            final(self).wf(),
            match map2_fields(old(self).graph(), name@, tfields_view(ra@), tfields_view(rb@), i as int) {
                Ok((g, t)) => r matches Ok(rt) && tfields_view(rt@) == t && final(self).graph() == g,
                Err(e) => r matches Err(re) && re@ == e,
            },
            final(self).inputs == old(self).inputs,
            final(self).rng == old(self).rng,
            grows(old(self).nodes@, final(self).nodes@),
        decreases ra, rb, ra@.len() - i,
    {
        proof {
            lemma_tfields_index(ra@);
            lemma_tfields_index(rb@);
        }
        if i >= ra.len() {
            let out: Vec<(String, TVal)> = Vec::new();
            assert(tfields_view(out@) =~= seq![]);
            return Ok(out);
        }
        let j = match field_index(rb, ra[i].0.as_str()) {
            None => {
                return Err(TraceError::MissingField(ra[i].0.clone()));
            },
            Some(j) => j,
        };
        proof {
            assert(decreases_to!(*ra => ra@));
            assert(decreases_to!(ra@ => ra@[i as int]));
            assert(decreases_to!(ra@[i as int] => ra@[i as int].1));
        }
        let r = match self.tmap2(name, &ra[i].1, &rb[j].1) {
            Err(e) => {
                return Err(e);
            },
            Ok(r) => r,
        };
        let mut rest = match self.map2_fields(name, ra, rb, i + 1) {
            Err(e) => {
                return Err(e);
            },
            Ok(rest) => rest,
        };
        let ghost rest0 = rest@;
        let x = (ra[i].0.clone(), r);
        let ghost xv = x;
        rest.insert(0, x);
        proof {
            assert(rest@ =~= seq![xv] + rest0);
            lemma_tfields_cons(xv, rest0);
        }
        Ok(rest)
    }

    fn map_left(&mut self, name: &str, ra: &Vec<(String, TVal)>, b: &TVal, i: usize) -> (r: Result<
        Vec<(String, TVal)>,
        TraceError,
    >)
        requires
            old(self).wf(),
            i <= ra@.len(),
        ensures
            final(self).wf(),
            match map_left(old(self).graph(), name@, tfields_view(ra@), tval_view(*b), i as int) {
                Ok((g, t)) => r matches Ok(rt) && tfields_view(rt@) == t && final(self).graph() == g,
                Err(e) => r matches Err(re) && re@ == e,
            },
            final(self).inputs == old(self).inputs,
            final(self).rng == old(self).rng,
            grows(old(self).nodes@, final(self).nodes@),
        decreases ra, b, ra@.len() - i,
    {
        proof {
            lemma_tfields_index(ra@);
        }
        if i >= ra.len() {
            let out: Vec<(String, TVal)> = Vec::new();
            assert(tfields_view(out@) =~= seq![]);
            return Ok(out);
        }
        proof {
            assert(decreases_to!(*ra => ra@));
            assert(decreases_to!(ra@ => ra@[i as int]));
            assert(decreases_to!(ra@[i as int] => ra@[i as int].1));
        }
        let r = match self.tmap2(name, &ra[i].1, b) {
            Err(e) => {
                return Err(e);
            },
            Ok(r) => r,
        };
        let mut rest = match self.map_left(name, ra, b, i + 1) {
            Err(e) => {
                return Err(e);
            },
            Ok(rest) => rest,
        };
        let ghost rest0 = rest@;
        let x = (ra[i].0.clone(), r);
        let ghost xv = x;
        rest.insert(0, x);
        proof {
            assert(rest@ =~= seq![xv] + rest0);
            lemma_tfields_cons(xv, rest0);
        }
        Ok(rest)
    }

    fn map_right(&mut self, name: &str, a: &TVal, rb: &Vec<(String, TVal)>, i: usize) -> (r: Result<
        Vec<(String, TVal)>,
        TraceError,
    >)
        requires
            old(self).wf(),
            i <= rb@.len(),
        ensures
            final(self).wf(),
            match map_right(old(self).graph(), name@, tval_view(*a), tfields_view(rb@), i as int) {
                Ok((g, t)) => r matches Ok(rt) && tfields_view(rt@) == t && final(self).graph() == g,
                Err(e) => r matches Err(re) && re@ == e,
            },
            final(self).inputs == old(self).inputs,
            final(self).rng == old(self).rng,
            grows(old(self).nodes@, final(self).nodes@),
        decreases a, rb, rb@.len() - i,
    {
        proof {
            lemma_tfields_index(rb@);
        }
        if i >= rb.len() {
            let out: Vec<(String, TVal)> = Vec::new();
            assert(tfields_view(out@) =~= seq![]);
            return Ok(out);
        }
        proof {
            assert(decreases_to!(*rb => rb@));
            assert(decreases_to!(rb@ => rb@[i as int]));
            assert(decreases_to!(rb@[i as int] => rb@[i as int].1));
        }
        let r = match self.tmap2(name, a, &rb[i].1) {
            Err(e) => {
                return Err(e);
            },
            Ok(r) => r,
        };
        let mut rest = match self.map_right(name, a, rb, i + 1) {
            Err(e) => {
                return Err(e);
            },
            Ok(rest) => rest,
        };
        let ghost rest0 = rest@;
        let x = (rb[i].0.clone(), r);
        let ghost xv = x;
        rest.insert(0, x);
        proof {
            assert(rest@ =~= seq![xv] + rest0);
            lemma_tfields_cons(xv, rest0);
        }
        Ok(rest)
    }
}


/// The value last bound to `name` in an environment.
pub open spec fn env_get(env: Seq<(Seq<char>, TValV)>, name: Seq<char>) -> Option<TValV>
    decreases env.len(),
{
    if env.len() == 0 {
        None
    } else if env.last().0 == name {
        Some(env.last().1)
    } else {
        env_get(env.drop_last(), name)
    }
}

/// The first function declared under `name`, from position `i` on.
pub open spec fn decl_from(fns: Seq<(Seq<char>, DeclV)>, name: Seq<char>, i: int) -> Option<DeclV>
    decreases fns.len() - i,
{
    if i < 0 || i >= fns.len() {
        None
    } else if fns[i].0 == name {
        Some(fns[i].1)
    } else {
        decl_from(fns, name, i + 1)
    }
}

/// The text of a number literal as a floating-point constant: a trailing point gets a
/// zero after it, and a literal without a point gets `.0`.
pub open spec fn float_text(t: Seq<char>) -> Seq<char> {
    if t.len() > 0 && t.last() == '.' {
        t + seq!['0']
    } else if t.contains('.') {
        t
    } else {
        t + seq!['.', '0']
    }
}

/// A scalar `f32` constant of the given text, as an unbatched value.
pub open spec fn scalar_spec(g: GraphV, text: Seq<char>) -> (GraphV, TValV) {
    (constant_val(g, text, Dtype::F32).0, TValV::Tensor(BValV { val: constant_val(g, text, Dtype::F32).1, bdims: 0 }))
}

/// Parameters bound to argument values, in order.
pub open spec fn bind_params(params: Seq<Seq<char>>, vals: Seq<TValV>) -> Seq<(Seq<char>, TValV)> {
    Seq::new(params.len(), |i: int| (params[i], vals[i]))
}

/// Traces an expression in an environment: the graph it leaves and the value it has.
/// Calls of the program's functions nest at most `depth` deep.
pub open spec fn trace_spec(
    g: GraphV,
    e: ExprV,
    env: Seq<(Seq<char>, TValV)>,
    fns: Seq<(Seq<char>, DeclV)>,
    depth: nat,
) -> Result<(GraphV, TValV), TraceErrorV>
    decreases depth, e, 0int,
{
    match e {
        ExprV::Num(t) => Ok(scalar_spec(g, float_text(t))),
        ExprV::Str(_) => Err(TraceError::StringLiteral),
        ExprV::RecordLit(fs) => match trace_fields(g, fs, env, fns, depth, 0) {
            Err(x) => Err(x),
            Ok((g1, out)) => Ok((g1, TValV::Record(out))),
        },
        ExprV::Field(inner, n) => match trace_spec(g, *inner, env, fns, depth) {
            Err(x) => Err(x),
            Ok((g1, v)) => match v {
                TValV::Record(fs) => match field_of(fs, n, 0) {
                    Some(fv) => Ok((g1, fv)),
                    None => Err(TraceError::NoField(n)),
                },
                TValV::Tensor(_) => Err(TraceError::FieldOnTensor(n)),
            },
        },
        ExprV::Var(n) => match env_get(env, n) {
            Some(v) => Ok((g, v)),
            None => if n == "pi"@ {
                Ok(scalar_spec(g, "3.141592653589793"@))
            } else if decl_from(fns, n, 0) is Some {
                Err(TraceError::FunctionValue(n))
            } else {
                Err(TraceError::Undefined(n))
            },
        },
        ExprV::Neg(inner) => match trace_spec(g, *inner, env, fns, depth) {
            Err(x) => Err(x),
            Ok((g1, v)) => tunary_spec(g1, "negate"@, v),
        },
        ExprV::Arr(items) => if items.len() == 0 {
            Err(TraceError::EmptyArray)
        } else {
            match trace_elems(g, items, env, fns, depth, 0) {
                Err(x) => Err(x),
                Ok((g1, vals)) => match stack_val(g1, vals) {
                    Err(x) => Err(x),
                    Ok((g2, v)) => Ok((g2, TValV::Tensor(v))),
                },
            }
        },
        ExprV::Bin(op, l, r) => match trace_spec(g, *l, env, fns, depth) {
            Err(x) => Err(x),
            Ok((g1, lv)) => match trace_spec(g1, *r, env, fns, depth) {
                Err(x) => Err(x),
                Ok((g2, rv)) => tmap2_spec(g2, op_name_spec(op), lv, rv),
            },
        },
        ExprV::Cmp(dir, l, r) => match trace_spec(g, *l, env, fns, depth) {
            Err(x) => Err(x),
            Ok((g1, lv)) => match lv {
                TValV::Record(_) => Err(TraceError::RecordComparison),
                TValV::Tensor(a) => match trace_spec(g1, *r, env, fns, depth) {
                    Err(x) => Err(x),
                    Ok((g2, rv)) => match rv {
                        TValV::Record(_) => Err(TraceError::RecordComparison),
                        TValV::Tensor(b) => if !usable(g2, a) || !usable(g2, b) {
                            Err(TraceError::Unusable)
                        } else {
                            match bcompare_val(g2, dir, a, b) {
                                Err(x) => Err(x),
                                Ok((g3, v)) => Ok((g3, TValV::Tensor(v))),
                            }
                        },
                    },
                },
            },
        },
        ExprV::Let(n, v, body) => match trace_spec(g, *v, env, fns, depth) {
            Err(x) => Err(x),
            Ok((g1, tv)) => trace_spec(g1, *body, env.push((n, tv)), fns, depth),
        },
        ExprV::For(..) => Err(TraceError::LoopNotTraced),
        ExprV::Call(n, args) => match env_get(env, n) {
            Some(_) => match trace_args(g, args, env, fns, depth, 0) {
                Err(x) => Err(x),
                Ok(_) => Err(TraceError::NotCallable(n)),
            },
            None => match decl_from(fns, n, 0) {
                None => if literal_builtin(n) {
                    lit_builtin_spec(g, n, args, env, fns, depth)
                } else {
                    match trace_args(g, args, env, fns, depth, 0) {
                        Err(x) => Err(x),
                        Ok((g1, vals)) => builtin_spec(g1, n, vals),
                    }
                },
                Some(d) => if d.params.len() != args.len() {
                    Err(TraceError::Arity(n, d.params.len() as usize, args.len() as usize))
                } else {
                    match trace_args(g, args, env, fns, depth, 0) {
                        Err(x) => Err(x),
                        Ok((g1, vals)) => if depth == 0 {
                            Err(TraceError::CallDepth)
                        } else {
                            trace_spec(g1, d.body, bind_params(d.params, vals), fns, (depth - 1) as nat)
                        },
                    }
                },
            },
        },
        ExprV::Then(a, b) => match trace_spec(g, *a, env, fns, depth) {
            Err(x) => Err(x),
            Ok((g1, _)) => trace_spec(g1, *b, env, fns, depth),
        },
    }
}

/// Traces the fields of a record literal from position `i` on, in order.
pub open spec fn trace_fields(
    g: GraphV,
    fs: Seq<(Seq<char>, ExprV)>,
    env: Seq<(Seq<char>, TValV)>,
    fns: Seq<(Seq<char>, DeclV)>,
    depth: nat,
    i: int,
) -> Result<(GraphV, Seq<(Seq<char>, TValV)>), TraceErrorV>
    decreases depth, fs, fs.len() - i,
{
    if i < 0 || i >= fs.len() {
        Ok((g, seq![]))
    } else {
        match trace_spec(g, fs[i].1, env, fns, depth) {
            Err(x) => Err(x),
            Ok((g1, v)) => match trace_fields(g1, fs, env, fns, depth, i + 1) {
                Err(x) => Err(x),
                Ok((g2, rest)) => Ok((g2, seq![(fs[i].0, v)] + rest)),
            },
        }
    }
}

/// Traces the arguments of a call from position `i` on, in order.
pub open spec fn trace_args(
    g: GraphV,
    args: Seq<ExprV>,
    env: Seq<(Seq<char>, TValV)>,
    fns: Seq<(Seq<char>, DeclV)>,
    depth: nat,
    i: int,
) -> Result<(GraphV, Seq<TValV>), TraceErrorV>
    decreases depth, args, args.len() - i,
{
    if i < 0 || i >= args.len() {
        Ok((g, seq![]))
    } else {
        match trace_spec(g, args[i], env, fns, depth) {
            Err(x) => Err(x),
            Ok((g1, v)) => match trace_args(g1, args, env, fns, depth, i + 1) {
                Err(x) => Err(x),
                Ok((g2, rest)) => Ok((g2, seq![v] + rest)),
            },
        }
    }
}

/// Traces the elements of an array literal from position `i` on, in order; each must be
/// a tensor the tracer can use.
pub open spec fn trace_elems(
    g: GraphV,
    items: Seq<ExprV>,
    env: Seq<(Seq<char>, TValV)>,
    fns: Seq<(Seq<char>, DeclV)>,
    depth: nat,
    i: int,
) -> Result<(GraphV, Seq<BValV>), TraceErrorV>
    decreases depth, items, items.len() - i,
{
    if i < 0 || i >= items.len() {
        Ok((g, seq![]))
    } else {
        match trace_spec(g, items[i], env, fns, depth) {
            Err(x) => Err(x),
            Ok((g1, v)) => match v {
                TValV::Record(_) => Err(TraceError::RecordElement),
                TValV::Tensor(b) => if !usable(g1, b) {
                    Err(TraceError::Unusable)
                } else {
                    match trace_elems(g1, items, env, fns, depth, i + 1) {
                        Err(x) => Err(x),
                        Ok((g2, rest)) => Ok((g2, seq![b] + rest)),
                    }
                },
            },
        }
    }
}


proof fn lemma_exprs_index(s: Seq<Expr>)
    ensures
        exprs_view(s).len() == s.len(),
        forall|i: int| 0 <= i < s.len() ==> #[trigger] exprs_view(s)[i] == expr_view(s[i]),
    decreases s.len(),
{
    if s.len() > 0 {
        lemma_exprs_index(s.drop_last());
    }
}

proof fn lemma_named_index(s: Seq<(String, Expr)>)
    ensures
        named_view(s).len() == s.len(),
        forall|i: int| 0 <= i < s.len() ==> #[trigger] named_view(s)[i] == (s[i].0@, expr_view(s[i].1)),
    decreases s.len(),
{
    if s.len() > 0 {
        lemma_named_index(s.drop_last());
    }
}

/// Traced values as specifications see them.
pub open spec fn tvals_view(s: Seq<TVal>) -> Seq<TValV> {
    Seq::new(s.len(), |i: int| tval_view(s[i]))
}

/// A copy of a list of named values.
pub fn fields_copy(fs: &Vec<(String, TVal)>) -> (r: Vec<(String, TVal)>)
    ensures
        tfields_view(r@) == tfields_view(fs@),
{
    let mut out: Vec<(String, TVal)> = Vec::new();
    let mut i: usize = 0;
    proof {
        lemma_tfields_index(fs@);
    }
    while i < fs.len()
        invariant
            i <= fs@.len(),
            out@.len() == i,
            forall|k: int| 0 <= k < i ==> #[trigger] tfields_view(out@)[k] == tfields_view(fs@)[k],
            tfields_view(fs@).len() == fs@.len(),
            forall|k: int| 0 <= k < fs@.len() ==> #[trigger] tfields_view(fs@)[k] == (fs@[k].0@, tval_view(fs@[k].1)),
        decreases fs.len() - i,
    {
        let c = tval_copy(&fs[i].1);
        let ghost before = out@;
        out.push((fs[i].0.clone(), c));
        proof {
            lemma_tfields_index(before);
            lemma_tfields_index(out@);
            assert forall|k: int| 0 <= k < i + 1 implies #[trigger] tfields_view(out@)[k] == tfields_view(fs@)[k] by {
                if k < i {
                    assert(out@[k] == before[k]);
                    assert(tfields_view(before)[k] == tfields_view(fs@)[k]);
                } else {
                    assert(out@[k].0@ == fs@[k].0@);
                }
            }
        }
        i = i + 1;
    }
    proof {
        lemma_tfields_index(out@);
    }
    assert(tfields_view(out@) =~= tfields_view(fs@));
    out
}

/// The position of the last binding of `name` in an environment.
pub fn env_index(env: &Vec<(String, TVal)>, name: &str) -> (r: Option<usize>)
    ensures
        match r {
            Some(j) => j < env@.len() && env_get(tfields_view(env@), name@) == Some(tval_view(env@[j as int].1)),
            None => env_get(tfields_view(env@), name@) is None,
        },
{
    let ghost fv = tfields_view(env@);
    proof {
        lemma_tfields_index(env@);
    }
    let mut i: usize = env.len();
    assert(fv.subrange(0, i as int) =~= fv);
    while i > 0
        invariant
            i <= env@.len(),
            fv == tfields_view(env@),
            fv.len() == env@.len(),
            forall|k: int| 0 <= k < env@.len() ==> #[trigger] fv[k] == (env@[k].0@, tval_view(env@[k].1)),
            env_get(fv, name@) == env_get(fv.subrange(0, i as int), name@),
        decreases i,
    {
        let ghost pre = fv.subrange(0, i as int);
        assert(pre.last() == fv[i - 1]);
        assert(pre.drop_last() =~= fv.subrange(0, i - 1));
        if str_eq(env[i - 1].0.as_str(), name) {
            return Some(i - 1);
        }
        i = i - 1;
    }
    None
}

/// The position of the first function declared under `name`.
pub fn decl_index(fns: &Vec<(String, Decl)>, name: &str) -> (r: Option<usize>)
    ensures
        match r {
            Some(j) => j < fns@.len() && decl_from(decls_view(fns@), name@, 0) == Some(decl_view(fns@[j as int].1)),
            None => decl_from(decls_view(fns@), name@, 0) is None,
        },
{
    let ghost dv = decls_view(fns@);
    let mut i: usize = 0;
    while i < fns.len()
        invariant
            i <= fns@.len(),
            dv == decls_view(fns@),
            decl_from(dv, name@, 0) == decl_from(dv, name@, i as int),
        decreases fns.len() - i,
    {
        if str_eq(fns[i].0.as_str(), name) {
            return Some(i);
        }
        i = i + 1;
    }
    None
}

/// The text of a number literal as a floating-point constant.
pub fn float_text_of(t: &str) -> (r: String)
    ensures
        r@ == float_text(t@),
{
    let mut cs = chars_of(t);
    let n = cs.len();
    if n > 0 && cs[n - 1] == '.' {
        cs.push('0');
        assert(cs@ =~= t@ + seq!['0']);
        return string_from_chars(cs.as_slice());
    }
    let mut i: usize = 0;
    while i < n
        invariant
            i <= n,
            n == cs@.len(),
            cs@ == t@,
            !(n > 0 && cs@[n - 1] == '.'),
            forall|k: int| 0 <= k < i ==> cs@[k] != '.',
        decreases n - i,
    {
        if cs[i] == '.' {
            assert(t@.contains('.')) by {
                assert(t@[i as int] == '.');
            }
            return string_from_chars(cs.as_slice());
        }
        i = i + 1;
    }
    assert(!t@.contains('.'));
    cs.push('.');
    cs.push('0');
    assert(cs@ =~= t@ + seq!['.', '0']);
    string_from_chars(cs.as_slice())
}


impl Tracer {
    /// Traces an expression in an environment, in which later bindings hide earlier ones.
    /// Calls of the program's functions nest at most `depth` deep.
    #[verifier::rlimit(60)]
    pub fn trace(&mut self, e: &Expr, env: &Vec<(String, TVal)>, prog: &Program, depth: usize) -> (r: Result<
        TVal,
        TraceError,
    >)
        requires
            old(self).wf(),
        ensures
            final(self).wf(),
            match trace_spec(old(self).graph(), expr_view(*e), tfields_view(env@), decls_view(prog.fns@), depth as nat) {
                Ok((g, t)) => r matches Ok(rt) && tval_view(rt) == t && final(self).graph() == g,
                Err(x) => r matches Err(rx) && rx@ == x,
            },
            final(self).inputs == old(self).inputs,
            final(self).rng == old(self).rng,
            grows(old(self).nodes@, final(self).nodes@),
        decreases depth, e, 2int,
    {
        match e {
            Expr::Num(t) => {
                let text = float_text_of(t.as_str());
                let val = self.constant(text, Dtype::F32);
                Ok(TVal::Tensor(BVal { val, bdims: 0 }))
            },
            Expr::Str(_) => Err(TraceError::StringLiteral),
            Expr::RecordLit(fs) => {
                proof {
                    assert(decreases_to!(*e => (*e)->RecordLit_0));
                    lemma_named_index(fs@);
                }
                match self.trace_fields(fs, env, prog, depth, 0) {
                    Err(x) => Err(x),
                    Ok(out) => Ok(TVal::Record(out)),
                }
            },
            Expr::Field(inner, n) => {
                proof {
                    assert(decreases_to!(*e => (*e)->Field_0));
                }
                let v = match self.trace(inner, env, prog, depth) {
                    Err(x) => {
                        return Err(x);
                    },
                    Ok(v) => v,
                };
                match v {
                    TVal::Record(fs) => match field_index(&fs, n.as_str()) {
                        Some(j) => Ok(tval_copy(&fs[j].1)),
                        None => Err(TraceError::NoField(n.clone())),
                    },
                    TVal::Tensor(_) => Err(TraceError::FieldOnTensor(n.clone())),
                }
            },
            Expr::Var(n) => match env_index(env, n.as_str()) {
                Some(j) => Ok(tval_copy(&env[j].1)),
                None => {
                    if str_eq(n.as_str(), "pi") {
                        let val = self.constant("3.141592653589793".to_owned(), Dtype::F32);
                        Ok(TVal::Tensor(BVal { val, bdims: 0 }))
                    } else if decl_index(&prog.fns, n.as_str()).is_some() {
                        Err(TraceError::FunctionValue(n.clone()))
                    } else {
                        Err(TraceError::Undefined(n.clone()))
                    }
                },
            },
            Expr::Neg(inner) => {
                proof {
                    assert(decreases_to!(*e => (*e)->Neg_0));
                }
                let v = match self.trace(inner, env, prog, depth) {
                    Err(x) => {
                        return Err(x);
                    },
                    Ok(v) => v,
                };
                self.tunary("negate", &v)
            },
            Expr::Arr(items) => {
                proof {
                    assert(decreases_to!(*e => (*e)->Arr_0));
                    lemma_exprs_index(items@);
                }
                if items.len() == 0 {
                    return Err(TraceError::EmptyArray);
                }
                let vals = match self.trace_elems(items, env, prog, depth, 0) {
                    Err(x) => {
                        return Err(x);
                    },
                    Ok(vals) => vals,
                };
                match self.stack(vals) {
                    Err(x) => Err(x),
                    Ok(v) => Ok(TVal::Tensor(v)),
                }
            },
            Expr::Bin(op, l, rt) => {
                proof {
                    assert(decreases_to!(*e => (*e)->Bin_1));
                    assert(decreases_to!(*e => (*e)->Bin_2));
                }
                let lv = match self.trace(l, env, prog, depth) {
                    Err(x) => {
                        return Err(x);
                    },
                    Ok(v) => v,
                };
                let rv = match self.trace(rt, env, prog, depth) {
                    Err(x) => {
                        return Err(x);
                    },
                    Ok(v) => v,
                };
                self.tmap2(op.name(), &lv, &rv)
            },
            Expr::Cmp(..) => self.trace_comparison(e, env, prog, depth),
            Expr::Let(n, v, body) => {
                proof {
                    assert(decreases_to!(*e => (*e)->Let_1));
                    assert(decreases_to!(*e => (*e)->Let_2));
                }
                let tv = match self.trace(v, env, prog, depth) {
                    Err(x) => {
                        return Err(x);
                    },
                    Ok(v) => v,
                };
                let mut env2 = fields_copy(env);
                let ghost before = env2@;
                let item = (n.clone(), tv);
                let ghost iv = item;
                env2.push(item);
                assert(env2@.drop_last() =~= before);
                assert(tfields_view(env2@) == tfields_view(env@).push((n@, tval_view(iv.1))));
                self.trace(body, &env2, prog, depth)
            },
            Expr::For(..) => Err(TraceError::LoopNotTraced),
            Expr::Call(..) => self.trace_call(e, env, prog, depth),
            Expr::Then(a, b) => {
                proof {
                    assert(decreases_to!(*e => (*e)->Then_0));
                    assert(decreases_to!(*e => (*e)->Then_1));
                }
                match self.trace(a, env, prog, depth) {
                    Err(x) => {
                        return Err(x);
                    },
                    Ok(_) => {},
                }
                self.trace(b, env, prog, depth)
            },
        }
    }

    /// Traces a comparison: both operands must be tensors the tracer can use.
    fn trace_comparison(&mut self, e: &Expr, env: &Vec<(String, TVal)>, prog: &Program, depth: usize) -> (r: Result<
        TVal,
        TraceError,
    >)
        requires
            old(self).wf(),
            e is Cmp,
        ensures
            final(self).wf(),
            match trace_spec(old(self).graph(), expr_view(*e), tfields_view(env@), decls_view(prog.fns@), depth as nat) {
                Ok((g, t)) => r matches Ok(rv) && tval_view(rv) == t && final(self).graph() == g,
                Err(x) => r matches Err(rx) && rx@ == x,
            },
            final(self).inputs == old(self).inputs,
            final(self).rng == old(self).rng,
            grows(old(self).nodes@, final(self).nodes@),
        decreases depth, e, 1int,
    {
        let (dir, l, rt) = match e {
            Expr::Cmp(dir, l, rt) => (dir, l, rt),
            _ => {
                return Err(TraceError::RecordComparison);
            },
        };
        proof {
            assert(decreases_to!(*e => (*e)->Cmp_1));
            assert(decreases_to!(*e => (*e)->Cmp_2));
        }
        let lv = match self.trace(l, env, prog, depth) {
            Err(x) => {
                return Err(x);
            },
            Ok(v) => v,
        };
        let a = match lv {
            TVal::Record(_) => {
                return Err(TraceError::RecordComparison);
            },
            TVal::Tensor(a) => a,
        };
        let rv = match self.trace(rt, env, prog, depth) {
            Err(x) => {
                return Err(x);
            },
            Ok(v) => v,
        };
        let b = match rv {
            TVal::Record(_) => {
                return Err(TraceError::RecordComparison);
            },
            TVal::Tensor(b) => b,
        };
        if !self.usable(&a) || !self.usable(&b) {
            return Err(TraceError::Unusable);
        }
        match self.bcompare(dir.as_str(), a, b) {
            Err(x) => Err(x),
            Ok(v) => Ok(TVal::Tensor(v)),
        }
    }
}


impl Tracer {
    /// Traces a call: of a bound value, which cannot be called; of a function of the
    /// program, whose body is traced with its parameters bound to the arguments; or of a
    /// built-in.
    fn trace_call(&mut self, e: &Expr, env: &Vec<(String, TVal)>, prog: &Program, depth: usize) -> (r: Result<
        TVal,
        TraceError,
    >)
        requires
            old(self).wf(),
            e is Call,
        ensures
            final(self).wf(),
            match trace_spec(old(self).graph(), expr_view(*e), tfields_view(env@), decls_view(prog.fns@), depth as nat) {
                Ok((g, t)) => r matches Ok(rv) && tval_view(rv) == t && final(self).graph() == g,
                Err(x) => r matches Err(rx) && rx@ == x,
            },
            final(self).inputs == old(self).inputs,
            final(self).rng == old(self).rng,
            grows(old(self).nodes@, final(self).nodes@),
        decreases depth, e, 1int,
    {
        let (name, args) = match e {
            Expr::Call(name, args) => (name, args),
            _ => {
                return Err(TraceError::CallDepth);
            },
        };
        proof {
            assert(decreases_to!(*e => (*e)->Call_1));
            lemma_exprs_index(args@);
        }
        if env_index(env, name.as_str()).is_some() {
            return match self.trace_args(args, env, prog, depth, 0) {
                Err(x) => Err(x),
                Ok(_) => Err(TraceError::NotCallable(name.clone())),
            };
        }
        let j = match decl_index(&prog.fns, name.as_str()) {
            None => {
                if is_literal_builtin(name.as_str()) {
                    return self.literal_builtin(e, env, prog, depth);
                }
                let vals = match self.trace_args(args, env, prog, depth, 0) {
                    Err(x) => {
                        return Err(x);
                    },
                    Ok(vals) => vals,
                };
                return self.builtin(name.as_str(), &vals);
            },
            Some(j) => j,
        };
        let d = &prog.fns[j].1;
        if d.params.len() != args.len() {
            return Err(TraceError::Arity(name.clone(), d.params.len(), args.len()));
        }
        let vals = match self.trace_args(args, env, prog, depth, 0) {
            Err(x) => {
                return Err(x);
            },
            Ok(vals) => vals,
        };
        if depth == 0 {
            return Err(TraceError::CallDepth);
        }
        let mut env2: Vec<(String, TVal)> = Vec::new();
        let mut k: usize = 0;
        while k < d.params.len()
            invariant
                k <= d.params@.len(),
                d.params@.len() == vals@.len(),
                env2@.len() == k,
                forall|m: int| 0 <= m < k ==> (#[trigger] env2@[m]).0@ == d.params@[m]@ && tval_view(env2@[m].1) == tval_view(vals@[m]),
            decreases d.params.len() - k,
        {
            env2.push((d.params[k].clone(), tval_copy(&vals[k])));
            k = k + 1;
        }
        proof {
            lemma_tfields_index(env2@);
            assert(tfields_view(env2@) =~= bind_params(strings_view(d.params@), tvals_view(vals@)));
        }
        self.trace(&d.body, &env2, prog, depth - 1)
    }

    /// Traces the fields of a record literal from position `i` on, in order.
    fn trace_fields(&mut self, fs: &Vec<(String, Expr)>, env: &Vec<(String, TVal)>, prog: &Program, depth: usize, i: usize) -> (r: Result<
        Vec<(String, TVal)>,
        TraceError,
    >)
        requires
            old(self).wf(),
            i <= fs@.len(),
        ensures
            final(self).wf(),
            match trace_fields(old(self).graph(), named_view(fs@), tfields_view(env@), decls_view(prog.fns@), depth as nat, i as int) {
                Ok((g, t)) => r matches Ok(rv) && tfields_view(rv@) == t && final(self).graph() == g,
                Err(x) => r matches Err(rx) && rx@ == x,
            },
            final(self).inputs == old(self).inputs,
            final(self).rng == old(self).rng,
            grows(old(self).nodes@, final(self).nodes@),
        decreases depth, fs, fs@.len() - i,
    {
        proof {
            lemma_named_index(fs@);
        }
        if i >= fs.len() {
            let out: Vec<(String, TVal)> = Vec::new();
            assert(tfields_view(out@) =~= seq![]);
            return Ok(out);
        }
        proof {
            assert(decreases_to!(*fs => fs@));
            assert(decreases_to!(fs@ => fs@[i as int]));
            assert(decreases_to!(fs@[i as int] => fs@[i as int].1));
        }
        let v = match self.trace(&fs[i].1, env, prog, depth) {
            Err(x) => {
                return Err(x);
            },
            Ok(v) => v,
        };
        let mut rest = match self.trace_fields(fs, env, prog, depth, i + 1) {
            Err(x) => {
                return Err(x);
            },
            Ok(rest) => rest,
        };
        let ghost rest0 = rest@;
        let x = (fs[i].0.clone(), v);
        let ghost xv = x;
        rest.insert(0, x);
        proof {
            assert(rest@ =~= seq![xv] + rest0);
            lemma_tfields_cons(xv, rest0);
        }
        Ok(rest)
    }

    /// Traces the arguments of a call from position `i` on, in order.
    fn trace_args(&mut self, args: &Vec<Expr>, env: &Vec<(String, TVal)>, prog: &Program, depth: usize, i: usize) -> (r: Result<
        Vec<TVal>,
        TraceError,
    >)
        requires
            old(self).wf(),
            i <= args@.len(),
        ensures
            final(self).wf(),
            match trace_args(old(self).graph(), exprs_view(args@), tfields_view(env@), decls_view(prog.fns@), depth as nat, i as int) {
                Ok((g, t)) => r matches Ok(rv) && tvals_view(rv@) == t && final(self).graph() == g,
                Err(x) => r matches Err(rx) && rx@ == x,
            },
            r matches Ok(rv) ==> rv@.len() == args@.len() - i,
            final(self).inputs == old(self).inputs,
            final(self).rng == old(self).rng,
            grows(old(self).nodes@, final(self).nodes@),
        decreases depth, args, args@.len() - i,
    {
        proof {
            lemma_exprs_index(args@);
        }
        if i >= args.len() {
            let out: Vec<TVal> = Vec::new();
            assert(tvals_view(out@) =~= seq![]);
            return Ok(out);
        }
        proof {
            assert(decreases_to!(*args => args@));
            assert(decreases_to!(args@ => args@[i as int]));
        }
        let v = match self.trace(&args[i], env, prog, depth) {
            Err(x) => {
                return Err(x);
            },
            Ok(v) => v,
        };
        let mut rest = match self.trace_args(args, env, prog, depth, i + 1) {
            Err(x) => {
                return Err(x);
            },
            Ok(rest) => rest,
        };
        let ghost rest0 = rest@;
        let ghost vv = tval_view(v);
        rest.insert(0, v);
        assert(tvals_view(rest@) =~= seq![vv] + tvals_view(rest0));
        Ok(rest)
    }

    /// Traces the elements of an array literal from position `i` on, in order; each must
    /// be a tensor the tracer can use.
    fn trace_elems(&mut self, items: &Vec<Expr>, env: &Vec<(String, TVal)>, prog: &Program, depth: usize, i: usize) -> (r: Result<
        Vec<BVal>,
        TraceError,
    >)
        requires
            old(self).wf(),
            i <= items@.len(),
        ensures
            final(self).wf(),
            match trace_elems(old(self).graph(), exprs_view(items@), tfields_view(env@), decls_view(prog.fns@), depth as nat, i as int) {
                Ok((g, t)) => r matches Ok(rv) && bvals_view(rv@) == t && final(self).graph() == g,
                Err(x) => r matches Err(rx) && rx@ == x,
            },
            r matches Ok(rv) ==> rv@.len() == items@.len() - i,
            r matches Ok(rv) ==> forall|k: int|
                0 <= k < rv@.len() ==> bval_ok(#[trigger] rv@[k]@),
            r matches Ok(rv) ==> forall|k: int|
                0 <= k < rv@.len() ==> #[trigger] rv@[k].val.id < final(self).nodes@.len(),
            r matches Ok(rv) ==> forall|k: int|
                0 <= k < rv@.len() ==> #[trigger] rv@[k].val.shape@.len() < usize::MAX,
            final(self).inputs == old(self).inputs,
            final(self).rng == old(self).rng,
            grows(old(self).nodes@, final(self).nodes@),
        decreases depth, items, items@.len() - i,
    {
        proof {
            lemma_exprs_index(items@);
        }
        if i >= items.len() {
            let out: Vec<BVal> = Vec::new();
            assert(bvals_view(out@) =~= seq![]);
            return Ok(out);
        }
        proof {
            assert(decreases_to!(*items => items@));
            assert(decreases_to!(items@ => items@[i as int]));
        }
        let v = match self.trace(&items[i], env, prog, depth) {
            Err(x) => {
                return Err(x);
            },
            Ok(v) => v,
        };
        let b = match v {
            TVal::Record(_) => {
                return Err(TraceError::RecordElement);
            },
            TVal::Tensor(b) => b,
        };
        if !self.usable(&b) {
            return Err(TraceError::Unusable);
        }
        let ghost mid = self.nodes@;
        assert(usable(self.graph(), b@));
        let mut rest = match self.trace_elems(items, env, prog, depth, i + 1) {
            Err(x) => {
                return Err(x);
            },
            Ok(rest) => rest,
        };
        let ghost rest0 = rest@;
        let ghost bv = b;
        rest.insert(0, b);
        assert(bvals_view(rest@) =~= seq![bv@] + bvals_view(rest0));
        assert(rest@[0] == bv);
        assert forall|k: int| 0 <= k < rest@.len() implies bval_ok(#[trigger] rest@[k]@) && rest@[k].val.id < self.nodes@.len()
            && rest@[k].val.shape@.len() < usize::MAX by {
            if k > 0 {
                assert(rest@[k] == rest0[k - 1]);
            } else {
                assert(rest@[0] == bv);
                assert(bv.val.id < mid.len());
                assert(mid.len() <= self.nodes@.len());
            }
        }
        assert(rest0.len() == items@.len() - (i + 1));
        assert(rest@.len() == items@.len() - i);
        Ok(rest)
    }
}


/// Binding an expression to a name and reading the name back traces as the expression
/// alone: the same graph and the same value, or the same error.
pub proof fn law_let_reads_back(
    g: GraphV,
    n: Seq<char>,
    v: ExprV,
    env: Seq<(Seq<char>, TValV)>,
    fns: Seq<(Seq<char>, DeclV)>,
    depth: nat,
)
    ensures
        trace_spec(g, ExprV::Let(n, Box::new(v), Box::new(ExprV::Var(n))), env, fns, depth) == trace_spec(g, v, env, fns, depth),
{
    match trace_spec(g, v, env, fns, depth) {
        Err(_) => {},
        Ok((g1, tv)) => {
            assert(env.push((n, tv)).last() == (n, tv));
            assert(env_get(env.push((n, tv)), n) == Some(tv));
            assert(trace_spec(g1, ExprV::Var(n), env.push((n, tv)), fns, depth) == Ok::<(GraphV, TValV), TraceErrorV>((g1, tv)));
        },
    }
}

/// An expression after another traces to its own value, on the graph the first left.
pub proof fn law_then_keeps_second(
    g: GraphV,
    a: ExprV,
    b: ExprV,
    env: Seq<(Seq<char>, TValV)>,
    fns: Seq<(Seq<char>, DeclV)>,
    depth: nat,
)
    requires
        trace_spec(g, a, env, fns, depth) is Ok,
    ensures
        trace_spec(g, ExprV::Then(Box::new(a), Box::new(b)), env, fns, depth) == trace_spec(
            trace_spec(g, a, env, fns, depth)->Ok_0.0,
            b,
            env,
            fns,
            depth,
        ),
{
}


/// The elementwise operation a one-argument built-in traces to.
pub open spec fn unary_builtin(name: Seq<char>) -> Option<Seq<char>> {
    if name == "exp"@ {
        Some("exponential"@)
    } else if name == "sin"@ {
        Some("sine"@)
    } else if name == "cos"@ {
        Some("cosine"@)
    } else if name == "log"@ || name == "tanh"@ || name == "sqrt"@ || name == "floor"@ || name == "abs"@ {
        Some(name)
    } else {
        None
    }
}

/// The elementwise operation a two-argument built-in traces to.
pub open spec fn binary_builtin(name: Seq<char>) -> Option<Seq<char>> {
    if name == "maximum"@ || name == "minimum"@ {
        Some(name)
    } else if name == "pow"@ {
        Some("power"@)
    } else {
        None
    }
}

/// Whether a built-in sorts or scans a vector.
pub open spec fn vector_builtin(name: Seq<char>) -> bool {
    name == "sort"@ || name == "argsort"@ || name == "cumsum"@
}

/// The remainder of `a` by `b` that takes the sign of `b`: `a - floor(a / b) * b`.
pub open spec fn mod_spec(g: GraphV, a: TValV, b: TValV) -> Result<(GraphV, TValV), TraceErrorV> {
    match tmap2_spec(g, "divide"@, a, b) {
        Err(x) => Err(x),
        Ok((g1, q)) => match tunary_spec(g1, "floor"@, q) {
            Err(x) => Err(x),
            Ok((g2, f)) => match tmap2_spec(g2, "multiply"@, f, b) {
                Err(x) => Err(x),
                Ok((g3, w)) => tmap2_spec(g3, "subtract"@, a, w),
            },
        },
    }
}

/// A built-in function applied to traced arguments.
pub open spec fn builtin_spec(g: GraphV, name: Seq<char>, args: Seq<TValV>) -> Result<(GraphV, TValV), TraceErrorV> {
    if unary_builtin(name) is Some {
        if args.len() != 1 {
            Err(TraceError::BuiltinArgs(name, args.len() as usize))
        } else {
            tunary_spec(g, unary_builtin(name)->0, args[0])
        }
    } else if binary_builtin(name) is Some {
        if args.len() != 2 {
            Err(TraceError::BuiltinArgs(name, args.len() as usize))
        } else {
            tmap2_spec(g, binary_builtin(name)->0, args[0], args[1])
        }
    } else if name == "f32"@ || name == "f64"@ {
        if args.len() != 1 {
            Err(TraceError::BuiltinArgs(name, args.len() as usize))
        } else {
            Ok(tconvert_spec(g, args[0], if name == "f32"@ { Dtype::F32 } else { Dtype::F64 }))
        }
    } else if name == "where"@ {
        if args.len() != 3 {
            Err(TraceError::BuiltinArgs(name, args.len() as usize))
        } else {
            match (args[0], args[1], args[2]) {
                (TValV::Tensor(c), TValV::Tensor(a), TValV::Tensor(b)) => if !usable(g, c) || !usable(g, a) || !usable(g, b) {
                    Err(TraceError::Unusable)
                } else {
                    where_spec(g, c, a, b)
                },
                _ => Err(TraceError::RecordArgument(name)),
            }
        }
    } else if name == "mod"@ {
        if args.len() != 2 {
            Err(TraceError::BuiltinArgs(name, args.len() as usize))
        } else {
            mod_spec(g, args[0], args[1])
        }
    } else if name == "matmul"@ {
        if args.len() != 2 {
            Err(TraceError::BuiltinArgs(name, args.len() as usize))
        } else {
            match (args[0], args[1]) {
                (TValV::Tensor(a), TValV::Tensor(b)) => if !usable(g, a) || !usable(g, b) {
                    Err(TraceError::Unusable)
                } else {
                    match bmatmul_val(g, a, b) {
                        Err(x) => Err(x),
                        Ok((g1, v)) => Ok((g1, TValV::Tensor(v))),
                    }
                },
                _ => Err(TraceError::RecordArgument(name)),
            }
        }
    } else if vector_builtin(name) {
        if args.len() != 1 {
            Err(TraceError::BuiltinArgs(name, args.len() as usize))
        } else {
            match args[0] {
                TValV::Record(_) => Err(TraceError::RecordArgument(name)),
                TValV::Tensor(v) => if !usable(g, v) {
                    Err(TraceError::Unusable)
                } else if v.val.dtype == Dtype::I1 {
                    Err(TraceError::BooleanArgument(name))
                } else {
                    let r = if name == "sort"@ {
                        sort_spec(g, v)
                    } else if name == "argsort"@ {
                        argsort_spec(g, v)
                    } else {
                        cumsum_spec(g, v)
                    };
                    match r {
                        Err(x) => Err(x),
                        Ok((g1, b)) => Ok((g1, TValV::Tensor(b))),
                    }
                },
            }
        }
    } else {
        Err(TraceError::Builtin(name))
    }
}

/// The elementwise operation a one-argument built-in traces to.
pub fn unary_builtin_of(name: &str) -> (r: Option<&'static str>)
    ensures
        match r {
            Some(op) => unary_builtin(name@) == Some(op@),
            None => unary_builtin(name@) is None,
        },
{
    if str_eq(name, "exp") {
        Some("exponential")
    } else if str_eq(name, "sin") {
        Some("sine")
    } else if str_eq(name, "cos") {
        Some("cosine")
    } else if str_eq(name, "log") {
        Some("log")
    } else if str_eq(name, "tanh") {
        Some("tanh")
    } else if str_eq(name, "sqrt") {
        Some("sqrt")
    } else if str_eq(name, "floor") {
        Some("floor")
    } else if str_eq(name, "abs") {
        Some("abs")
    } else {
        None
    }
}

/// The elementwise operation a two-argument built-in traces to.
pub fn binary_builtin_of(name: &str) -> (r: Option<&'static str>)
    ensures
        match r {
            Some(op) => binary_builtin(name@) == Some(op@),
            None => binary_builtin(name@) is None,
        },
{
    if str_eq(name, "maximum") {
        Some("maximum")
    } else if str_eq(name, "minimum") {
        Some("minimum")
    } else if str_eq(name, "pow") {
        Some("power")
    } else {
        None
    }
}

impl Tracer {
    /// The remainder of `a` by `b` that takes the sign of `b`.
    fn trace_mod(&mut self, a: &TVal, b: &TVal) -> (r: Result<TVal, TraceError>)
        requires
            old(self).wf(),
        ensures
            final(self).wf(),
            match mod_spec(old(self).graph(), tval_view(*a), tval_view(*b)) {
                Ok((g, t)) => r matches Ok(rt) && tval_view(rt) == t && final(self).graph() == g,
                Err(e) => r matches Err(re) && re@ == e,
            },
            final(self).inputs == old(self).inputs,
            final(self).rng == old(self).rng,
            grows(old(self).nodes@, final(self).nodes@),
    {
        let q = match self.tmap2("divide", a, b) {
            Err(x) => {
                return Err(x);
            },
            Ok(q) => q,
        };
        let f = match self.tunary("floor", &q) {
            Err(x) => {
                return Err(x);
            },
            Ok(f) => f,
        };
        let w = match self.tmap2("multiply", &f, b) {
            Err(x) => {
                return Err(x);
            },
            Ok(w) => w,
        };
        self.tmap2("subtract", a, &w)
    }

    /// A built-in function applied to traced arguments.
    #[verifier::rlimit(80)]
    pub fn builtin(&mut self, name: &str, args: &Vec<TVal>) -> (r: Result<TVal, TraceError>)
        requires
            old(self).wf(),
        ensures
            final(self).wf(),
            match builtin_spec(old(self).graph(), name@, tvals_view(args@)) {
                Ok((g, t)) => r matches Ok(rt) && tval_view(rt) == t && final(self).graph() == g,
                Err(e) => r matches Err(re) && re@ == e,
            },
            final(self).inputs == old(self).inputs,
            final(self).rng == old(self).rng,
            grows(old(self).nodes@, final(self).nodes@),
    {
        let ghost av = tvals_view(args@);
        let n = args.len();
        if let Some(op) = unary_builtin_of(name) {
            if n != 1 {
                return Err(TraceError::BuiltinArgs(name.to_owned(), n));
            }
            return self.tunary(op, &args[0]);
        }
        if let Some(op) = binary_builtin_of(name) {
            if n != 2 {
                return Err(TraceError::BuiltinArgs(name.to_owned(), n));
            }
            return self.tmap2(op, &args[0], &args[1]);
        }
        let is_f32 = str_eq(name, "f32");
        if is_f32 || str_eq(name, "f64") {
            if n != 1 {
                return Err(TraceError::BuiltinArgs(name.to_owned(), n));
            }
            return Ok(self.tconvert(&args[0], if is_f32 { Dtype::F32 } else { Dtype::F64 }));
        }
        if str_eq(name, "where") {
            if n != 3 {
                return Err(TraceError::BuiltinArgs(name.to_owned(), n));
            }
            let (c, a, b) = match (&args[0], &args[1], &args[2]) {
                (TVal::Tensor(c), TVal::Tensor(a), TVal::Tensor(b)) => (c, a, b),
                _ => {
                    return Err(TraceError::RecordArgument(name.to_owned()));
                },
            };
            if !self.usable(c) || !self.usable(a) || !self.usable(b) {
                return Err(TraceError::Unusable);
            }
            return self.select_where(c, a, b);
        }
        if str_eq(name, "mod") {
            if n != 2 {
                return Err(TraceError::BuiltinArgs(name.to_owned(), n));
            }
            return self.trace_mod(&args[0], &args[1]);
        }
        if str_eq(name, "matmul") {
            if n != 2 {
                return Err(TraceError::BuiltinArgs(name.to_owned(), n));
            }
            let (a, b) = match (&args[0], &args[1]) {
                (TVal::Tensor(a), TVal::Tensor(b)) => (a, b),
                _ => {
                    return Err(TraceError::RecordArgument(name.to_owned()));
                },
            };
            if !self.usable(a) || !self.usable(b) {
                return Err(TraceError::Unusable);
            }
            return match self.bmatmul(bval_copy(a), bval_copy(b)) {
                Err(x) => Err(x),
                Ok(v) => Ok(TVal::Tensor(v)),
            };
        }
        let is_sort = str_eq(name, "sort");
        let is_argsort = str_eq(name, "argsort");
        let is_cumsum = str_eq(name, "cumsum");
        if is_sort || is_argsort || is_cumsum {
            if n != 1 {
                return Err(TraceError::BuiltinArgs(name.to_owned(), n));
            }
            let v = match &args[0] {
                TVal::Record(_) => {
                    return Err(TraceError::RecordArgument(name.to_owned()));
                },
                TVal::Tensor(v) => v,
            };
            if !self.usable(v) {
                return Err(TraceError::Unusable);
            }
            if v.val.dtype == Dtype::I1 {
                return Err(TraceError::BooleanArgument(name.to_owned()));
            }
            let r = if is_sort {
                self.sort_val(bval_copy(v))
            } else if is_argsort {
                self.argsort_val(bval_copy(v))
            } else {
                self.cumsum_val(bval_copy(v))
            };
            return match r {
                Err(x) => Err(x),
                Ok(b) => Ok(TVal::Tensor(b)),
            };
        }
        Err(TraceError::Builtin(name.to_owned()))
    }
}


/// A value converted to element type `dtype`: each tensor of a record.
pub open spec fn tconvert_spec(g: GraphV, v: TValV, dtype: Dtype) -> (GraphV, TValV)
    decreases v, 0int,
{
    match v {
        TValV::Tensor(b) => (
            convert_val(g, b.val, dtype).0,
            TValV::Tensor(BValV { val: convert_val(g, b.val, dtype).1, bdims: b.bdims }),
        ),
        TValV::Record(fs) => (tconvert_fields(g, fs, dtype, 0).0, TValV::Record(tconvert_fields(g, fs, dtype, 0).1)),
    }
}

pub open spec fn tconvert_fields(g: GraphV, fs: Seq<(Seq<char>, TValV)>, dtype: Dtype, i: int) -> (GraphV, Seq<(Seq<char>, TValV)>)
    decreases fs, fs.len() - i,
{
    if i < 0 || i >= fs.len() {
        (g, seq![])
    } else {
        let (g1, r) = tconvert_spec(g, fs[i].1, dtype);
        let (g2, rest) = tconvert_fields(g1, fs, dtype, i + 1);
        (g2, seq![(fs[i].0, r)] + rest)
    }
}

impl Tracer {
    /// A value converted to element type `dtype`: each tensor of a record.
    pub fn tconvert(&mut self, v: &TVal, dtype: Dtype) -> (r: TVal)
        requires
            old(self).wf(),
        ensures
            final(self).wf(),
            (final(self).graph(), tval_view(r)) == tconvert_spec(old(self).graph(), tval_view(*v), dtype),
            final(self).inputs == old(self).inputs,
            final(self).rng == old(self).rng,
            grows(old(self).nodes@, final(self).nodes@),
        decreases v, 0int,
    {
        match v {
            TVal::Tensor(b) => {
                let val = self.convert(&b.val, dtype);
                TVal::Tensor(BVal { val, bdims: b.bdims })
            },
            TVal::Record(fs) => {
                proof {
                    lemma_tfields_index(fs@);
                    assert(decreases_to!(*v => (*v)->Record_0));
                }
                TVal::Record(self.tconvert_fields(fs, dtype, 0))
            },
        }
    }

    fn tconvert_fields(&mut self, fs: &Vec<(String, TVal)>, dtype: Dtype, i: usize) -> (r: Vec<(String, TVal)>)
        requires
            old(self).wf(),
            i <= fs@.len(),
        ensures
            final(self).wf(),
            (final(self).graph(), tfields_view(r@)) == tconvert_fields(old(self).graph(), tfields_view(fs@), dtype, i as int),
            final(self).inputs == old(self).inputs,
            final(self).rng == old(self).rng,
            grows(old(self).nodes@, final(self).nodes@),
        decreases fs, fs@.len() - i,
    {
        proof {
            lemma_tfields_index(fs@);
        }
        if i >= fs.len() {
            let out: Vec<(String, TVal)> = Vec::new();
            assert(tfields_view(out@) =~= seq![]);
            return out;
        }
        proof {
            assert(decreases_to!(*fs => fs@));
            assert(decreases_to!(fs@ => fs@[i as int]));
            assert(decreases_to!(fs@[i as int] => fs@[i as int].1));
        }
        let r = self.tconvert(&fs[i].1, dtype);
        let mut rest = self.tconvert_fields(fs, dtype, i + 1);
        let ghost rest0 = rest@;
        let x = (fs[i].0.clone(), r);
        let ghost xv = x;
        rest.insert(0, x);
        proof {
            assert(rest@ =~= seq![xv] + rest0);
            lemma_tfields_cons(xv, rest0);
        }
        rest
    }
}


/// Of three batched values, the last with the most batch dimensions.
pub open spec fn deepest(a: BValV, b: BValV, c: BValV) -> BValV {
    if c.bdims >= a.bdims && c.bdims >= b.bdims {
        c
    } else if b.bdims >= a.bdims {
        b
    } else {
        a
    }
}

/// The selection of `a` where `c` holds and `b` elsewhere, its operands aligned to the
/// batch dimensions of the deepest and the broadcast of their element shapes.
pub open spec fn where_spec(g: GraphV, c: BValV, a: BValV, b: BValV) -> Result<(GraphV, TValV), TraceErrorV> {
    if c.val.dtype != Dtype::I1 {
        Err(TraceError::ConditionNotBoolean)
    } else if a.val.dtype == Dtype::I1 || b.val.dtype == Dtype::I1 {
        Err(TraceError::BooleanArgument("where"@))
    } else {
        match broadcast_spec(per_of(a), per_of(b)) {
            None => Err(TraceError::ShapeMismatch(per_of(a), per_of(b))),
            Some(p1) => match broadcast_spec(p1, per_of(c)) {
                None => Err(TraceError::ShapeMismatch(p1, per_of(c))),
                Some(per) => {
                    let d = deepest(a, b, c);
                    let prefix = d.val.shape.subrange(0, d.bdims as int);
                    let (g1, cv) = align_val(g, c, prefix, per);
                    if a.val.dtype == b.val.dtype {
                        Ok(where_tail(g1, cv, a, b, prefix, per))
                    } else if per_of(a).len() == 0 {
                        let (g2, av) = convert_val(g1, a.val, b.val.dtype);
                        Ok(where_tail(g2, cv, BValV { val: av, bdims: a.bdims }, b, prefix, per))
                    } else if per_of(b).len() == 0 {
                        let (g2, bv) = convert_val(g1, b.val, a.val.dtype);
                        Ok(where_tail(g2, cv, a, BValV { val: bv, bdims: b.bdims }, prefix, per))
                    } else {
                        Err(TraceError::DtypeMismatch(a.val.dtype, b.val.dtype))
                    }
                },
            },
        }
    }
}

/// The branches aligned and the selection made.
pub open spec fn where_tail(
    g: GraphV,
    cv: crate::graph::ValV,
    a: BValV,
    b: BValV,
    prefix: Seq<usize>,
    per: Seq<usize>,
) -> (GraphV, TValV) {
    let (g1, av) = align_val(g, a, prefix, per);
    let (g2, bv) = align_val(g1, b, prefix, per);
    let (g3, v) = select_val(g2, cv, av, bv);
    (g3, TValV::Tensor(BValV { val: v, bdims: prefix.len() as usize }))
}

/// The first `k` dimensions of a shape.
fn shape_prefix(s: &Vec<usize>, k: usize) -> (r: Vec<usize>)
    requires
        k <= s@.len(),
    ensures
        r@ == s@.subrange(0, k as int),
{
    let mut r: Vec<usize> = Vec::new();
    let mut i: usize = 0;
    while i < k
        invariant
            i <= k,
            k <= s@.len(),
            r@ == s@.subrange(0, i as int),
        decreases k - i,
    {
        r.push(s[i]);
        assert(s@.subrange(0, i + 1) =~= s@.subrange(0, i as int).push(s@[i as int]));
        i = i + 1;
    }
    r
}

impl Tracer {
    fn where_finish(&mut self, cv: &Val, a: &BVal, b: &BVal, prefix: &Vec<usize>, per: &Vec<usize>) -> (r: TVal)
        requires
            old(self).wf(),
            a.bdims <= a.val.shape@.len(),
            b.bdims <= b.val.shape@.len(),
            per_of(a@).len() <= per@.len(),
            per_of(b@).len() <= per@.len(),
            prefix@.len() + per@.len() <= usize::MAX,
        ensures
            final(self).wf(),
            (final(self).graph(), tval_view(r)) == where_tail(old(self).graph(), cv@, a@, b@, prefix@, per@),
            final(self).inputs == old(self).inputs,
            final(self).rng == old(self).rng,
            grows(old(self).nodes@, final(self).nodes@),
    {
        let av = self.align(a, prefix.as_slice(), per.as_slice());
        let bv = self.align(b, prefix.as_slice(), per.as_slice());
        let v = self.select(cv, &av, &bv);
        TVal::Tensor(BVal { val: v, bdims: prefix.len() })
    }

    /// The selection of `a` where `c` holds and `b` elsewhere.
    pub fn select_where(&mut self, c: &BVal, a: &BVal, b: &BVal) -> (r: Result<TVal, TraceError>)
        requires
            old(self).wf(),
            usable(old(self).graph(), c@),
            usable(old(self).graph(), a@),
            usable(old(self).graph(), b@),
        ensures
            final(self).wf(),
            match where_spec(old(self).graph(), c@, a@, b@) {
                Ok((g, t)) => r matches Ok(rt) && tval_view(rt) == t && final(self).graph() == g,
                Err(e) => r matches Err(re) && re@ == e,
            },
            final(self).inputs == old(self).inputs,
            final(self).rng == old(self).rng,
            grows(old(self).nodes@, final(self).nodes@),
    {
        if c.val.dtype != Dtype::I1 {
            return Err(TraceError::ConditionNotBoolean);
        }
        if a.val.dtype == Dtype::I1 || b.val.dtype == Dtype::I1 {
            return Err(TraceError::BooleanArgument("where".to_owned()));
        }
        let pa = per_shape(a);
        let pb = per_shape(b);
        let pc = per_shape(c);
        let p1 = match broadcast_shape(pa.as_slice(), pb.as_slice()) {
            None => {
                return Err(TraceError::ShapeMismatch(pa, pb));
            },
            Some(p1) => p1,
        };
        let per = match broadcast_shape(p1.as_slice(), pc.as_slice()) {
            None => {
                return Err(TraceError::ShapeMismatch(p1, pc));
            },
            Some(per) => per,
        };
        let d = if c.bdims >= a.bdims && c.bdims >= b.bdims {
            c
        } else if b.bdims >= a.bdims {
            b
        } else {
            a
        };
        let prefix = shape_prefix(&d.val.shape, d.bdims);
        let cv = self.align(c, prefix.as_slice(), per.as_slice());
        if a.val.dtype == b.val.dtype {
            return Ok(self.where_finish(&cv, a, b, &prefix, &per));
        }
        if pa.len() == 0 {
            let av = self.convert(&a.val, b.val.dtype);
            let a2 = BVal { val: av, bdims: a.bdims };
            return Ok(self.where_finish(&cv, &a2, b, &prefix, &per));
        }
        if pb.len() == 0 {
            let bv = self.convert(&b.val, a.val.dtype);
            let b2 = BVal { val: bv, bdims: b.bdims };
            return Ok(self.where_finish(&cv, a, &b2, &prefix, &per));
        }
        Err(TraceError::DtypeMismatch(a.val.dtype, b.val.dtype))
    }
}


/// Whether a built-in reads its arguments as literals, or traces them itself.
pub open spec fn literal_builtin(name: Seq<char>) -> bool {
    name == "arange"@ || name == "linspace"@ || name == "zeros"@ || name == "len"@ || name == "load"@
}

/// Whether a text ends with `suffix`.
pub open spec fn text_ends(t: Seq<char>, suffix: Seq<char>) -> bool {
    t.len() >= suffix.len() && t.subrange(t.len() - suffix.len(), t.len() as int) == suffix
}

/// Positions `0, 1, ..` of a vector of `n` times a step node, plus a start constant.
pub open spec fn scale_shift(g: GraphV, idx: crate::graph::ValV, step: crate::graph::ValV, start_t: Seq<char>) -> Result<
    (GraphV, TValV),
    TraceErrorV,
> {
    match ewise_val(g, "multiply"@, idx, step) {
        Err(x) => Err(x),
        Ok((g1, sc)) => match ewise_val(constant_val(g1, start_t, Dtype::F32).0, "add"@, sc, constant_val(g1, start_t, Dtype::F32).1) {
            Err(x) => Err(x),
            Ok((g2, v)) => Ok((g2, TValV::Tensor(BValV { val: v, bdims: 0 }))),
        },
    }
}

/// The `n` values `start + k * step`, with `start` and `step` constants of the given texts.
pub open spec fn arange_graph(g: GraphV, n: usize, start_t: Seq<char>, step_t: Seq<char>) -> Result<(GraphV, TValV), TraceErrorV> {
    let (g1, idx) = iota_along_val(g, seq![n], 0, Dtype::F32);
    let (g2, st) = constant_val(g1, step_t, Dtype::F32);
    scale_shift(g2, idx, st, start_t)
}

/// The `n` values evenly spaced from `start` to `stop`, both included: the step is
/// `(stop - start) / (n - 1)`, computed in the graph, or zero for a single value.
pub open spec fn linspace_graph(g: GraphV, n: usize, start_t: Seq<char>, stop_t: Seq<char>) -> Result<
    (GraphV, TValV),
    TraceErrorV,
> {
    let (g1, idx) = iota_along_val(g, seq![n], 0, Dtype::F32);
    if n == 1 {
        let (g2, st) = constant_val(g1, "0.0"@, Dtype::F32);
        scale_shift(g2, idx, st, start_t)
    } else {
        let (ga, a) = constant_val(g1, stop_t, Dtype::F32);
        let (gb, b) = constant_val(ga, start_t, Dtype::F32);
        match ewise_val(gb, "subtract"@, a, b) {
            Err(x) => Err(x),
            Ok((gc, d)) => {
                let (gd, c) = constant_val(gc, count_text((n - 1) as nat), Dtype::F32);
                match ewise_val(gd, "divide"@, d, c) {
                    Err(x) => Err(x),
                    Ok((ge, st)) => scale_shift(ge, idx, st, start_t),
                }
            },
        }
    }
}

/// `arange(stop)`, `arange(start, stop)` or `arange(start, stop, step)`: the values from
/// `start` (0 by default) by `step` (1 by default) up to `stop`, excluded.
pub open spec fn arange_spec(g: GraphV, args: Seq<ExprV>) -> Result<(GraphV, TValV), TraceErrorV> {
    let n = args.len();
    if n < 1 || n > 3 {
        Err(TraceError::BuiltinArgs("arange"@, n as usize))
    } else {
        let start = if n == 1 { Some(0int) } else { lit_value(args[0]) };
        let stop = if n == 1 { lit_value(args[0]) } else { lit_value(args[1]) };
        let step = if n == 3 { lit_value(args[2]) } else { Some(pow10(10)) };
        if start is None || stop is None || step is None {
            Err(TraceError::NotLiteral("arange"@))
        } else if step->0 == 0 {
            Err(TraceError::StepZero)
        } else {
            let c = range_count(start->0, stop->0, step->0);
            if c == 0 || c > usize::MAX {
                Err(TraceError::EmptyRange)
            } else {
                arange_graph(
                    g,
                    c as usize,
                    if n == 1 { "0.0"@ } else { lit_text(args[0]) },
                    if n == 3 { lit_text(args[2]) } else { "1.0"@ },
                )
            }
        }
    }
}

/// `linspace(start, stop, count)`.
pub open spec fn linspace_spec(g: GraphV, args: Seq<ExprV>) -> Result<(GraphV, TValV), TraceErrorV> {
    if args.len() != 3 {
        Err(TraceError::BuiltinArgs("linspace"@, args.len() as usize))
    } else if lit_value(args[0]) is None || lit_value(args[1]) is None {
        Err(TraceError::NotLiteral("linspace"@))
    } else if count_value(args[2]) is None {
        Err(TraceError::NotCount("linspace"@))
    } else if count_value(args[2])->0 == 0 {
        Err(TraceError::EmptyRange)
    } else {
        linspace_graph(g, count_value(args[2])->0 as usize, lit_text(args[0]), lit_text(args[1]))
    }
}

/// `zeros(d1, d2, ..)`: an `f32` zero tensor of the dimensions given.
pub open spec fn zeros_spec(g: GraphV, args: Seq<ExprV>) -> Result<(GraphV, TValV), TraceErrorV> {
    if args.len() == 0 {
        Err(TraceError::BuiltinArgs("zeros"@, 0))
    } else if exists|k: int| 0 <= k < args.len() && count_value(#[trigger] args[k]) is None {
        Err(TraceError::NotCount("zeros"@))
    } else {
        let dims = Seq::new(args.len(), |k: int| count_value(args[k])->0 as usize);
        Ok((zeros_val(g, dims, Dtype::F32).0, TValV::Tensor(BValV { val: zeros_val(g, dims, Dtype::F32).1, bdims: 0 })))
    }
}

/// `load(path)`, as far as the tracer decides it: images other than png and compressed
/// audio are refused, and other files are for the program runner to read.
pub open spec fn load_spec(args: Seq<ExprV>) -> TraceErrorV {
    if args.len() != 1 {
        TraceError::BuiltinArgs("load"@, args.len() as usize)
    } else {
        match args[0] {
            ExprV::Str(p) => if text_ends(p, ".jpg"@) || text_ends(p, ".jpeg"@) {
                TraceError::ConvertToPng(p)
            } else if text_ends(p, ".mp3"@) || text_ends(p, ".flac"@) || text_ends(p, ".ogg"@) {
                TraceError::ConvertToWav(p)
            } else {
                TraceError::LoadFile(p)
            },
            _ => TraceError::PathLiteral("load"@),
        }
    }
}

/// A built-in that reads its arguments as literals, or traces them itself.
pub open spec fn lit_builtin_spec(
    g: GraphV,
    name: Seq<char>,
    args: Seq<ExprV>,
    env: Seq<(Seq<char>, TValV)>,
    fns: Seq<(Seq<char>, DeclV)>,
    depth: nat,
) -> Result<(GraphV, TValV), TraceErrorV>
    decreases depth, args, 0int,
{
    if name == "arange"@ {
        arange_spec(g, args)
    } else if name == "linspace"@ {
        linspace_spec(g, args)
    } else if name == "zeros"@ {
        zeros_spec(g, args)
    } else if name == "load"@ {
        Err(load_spec(args))
    } else if args.len() != 1 {
        Err(TraceError::BuiltinArgs(name, args.len() as usize))
    } else {
        match trace_spec(g, args[0], env, fns, depth) {
            Err(x) => Err(x),
            Ok((g1, v)) => match v {
                TValV::Record(_) => Err(TraceError::RecordArgument(name)),
                TValV::Tensor(b) => if !usable(g1, b) {
                    Err(TraceError::Unusable)
                } else if per_of(b).len() == 0 {
                    Err(TraceError::ScalarArgument(name))
                } else {
                    Ok(scalar_spec(g1, count_text(per_of(b)[0] as nat)))
                },
            },
        }
    }
}

/// Whether a built-in reads its arguments as literals, or traces them itself.
pub fn is_literal_builtin(name: &str) -> (r: bool)
    ensures
        r == literal_builtin(name@),
{
    str_eq(name, "arange") || str_eq(name, "linspace") || str_eq(name, "zeros") || str_eq(name, "len") || str_eq(
        name,
        "load",
    )
}

/// Whether a text ends with `suffix`.
pub fn ends_with_text(t: &str, suffix: &str) -> (r: bool)
    ensures
        r == text_ends(t@, suffix@),
{
    let a = chars_of(t);
    let b = chars_of(suffix);
    if a.len() < b.len() {
        return false;
    }
    let off = a.len() - b.len();
    let mut i: usize = 0;
    while i < b.len()
        invariant
            a@ == t@,
            b@ == suffix@,
            off == a@.len() - b@.len(),
            a@.len() >= b@.len(),
            off + b@.len() == a@.len(),
            a@.len() <= usize::MAX,
            i <= b@.len(),
            forall|k: int| 0 <= k < i ==> a@[off + k] == b@[k],
        decreases b.len() - i,
    {
        if a[off + i] != b[i] {
            assert(t@.subrange(off as int, t@.len() as int)[i as int] != suffix@[i as int]);
            return false;
        }
        i = i + 1;
    }
    assert(t@.subrange(off as int, t@.len() as int) =~= suffix@);
    true
}

/// What `load` is refused with.
pub fn load_error(args: &Vec<Expr>) -> (r: TraceError)
    ensures
        r@ == load_spec(exprs_view(args@)),
{
    proof {
        lemma_exprs_index(args@);
    }
    if args.len() != 1 {
        return TraceError::BuiltinArgs("load".to_owned(), args.len());
    }
    match &args[0] {
        Expr::Str(p) => {
            if ends_with_text(p.as_str(), ".jpg") || ends_with_text(p.as_str(), ".jpeg") {
                TraceError::ConvertToPng(p.clone())
            } else if ends_with_text(p.as_str(), ".mp3") || ends_with_text(p.as_str(), ".flac") || ends_with_text(
                p.as_str(),
                ".ogg",
            ) {
                TraceError::ConvertToWav(p.clone())
            } else {
                TraceError::LoadFile(p.clone())
            }
        },
        _ => TraceError::PathLiteral("load".to_owned()),
    }
}

impl Tracer {
    fn scale_shift(&mut self, idx: Val, step: Val, start_t: Vec<char>) -> (r: Result<TVal, TraceError>)
        requires
            old(self).wf(),
        ensures
            final(self).wf(),
            match scale_shift(old(self).graph(), idx@, step@, start_t@) {
                Ok((g, t)) => r matches Ok(rt) && tval_view(rt) == t && final(self).graph() == g,
                Err(e) => r matches Err(re) && re@ == e,
            },
            final(self).inputs == old(self).inputs,
            final(self).rng == old(self).rng,
            grows(old(self).nodes@, final(self).nodes@),
    {
        let sc = match self.ewise("multiply", idx, step) {
            Err(x) => {
                return Err(x);
            },
            Ok(v) => v,
        };
        let s0 = self.constant(string_from_chars(start_t.as_slice()), Dtype::F32);
        match self.ewise("add", sc, s0) {
            Err(x) => Err(x),
            Ok(v) => Ok(TVal::Tensor(BVal { val: v, bdims: 0 })),
        }
    }

    /// `arange(stop)`, `arange(start, stop)` or `arange(start, stop, step)`.
    pub fn arange(&mut self, args: &Vec<Expr>) -> (r: Result<TVal, TraceError>)
        requires
            old(self).wf(),
        ensures
            final(self).wf(),
            match arange_spec(old(self).graph(), exprs_view(args@)) {
                Ok((g, t)) => r matches Ok(rt) && tval_view(rt) == t && final(self).graph() == g,
                Err(e) => r matches Err(re) && re@ == e,
            },
            final(self).inputs == old(self).inputs,
            final(self).rng == old(self).rng,
            grows(old(self).nodes@, final(self).nodes@),
    {
        proof {
            lemma_exprs_index(args@);
            assert(pow10(10) == 10000000000) by {
                reveal_with_fuel(pow10, 11);
            }
        }
        let n = args.len();
        if n < 1 || n > 3 {
            return Err(TraceError::BuiltinArgs("arange".to_owned(), n));
        }
        let start = if n == 1 { Some(0i128) } else { literal_value(&args[0]) };
        let stop = if n == 1 { literal_value(&args[0]) } else { literal_value(&args[1]) };
        let step = if n == 3 { literal_value(&args[2]) } else { Some(10000000000i128) };
        let (a, b, c) = match (start, stop, step) {
            (Some(a), Some(b), Some(c)) => (a, b, c),
            _ => {
                return Err(TraceError::NotLiteral("arange".to_owned()));
            },
        };
        if c == 0 {
            return Err(TraceError::StepZero);
        }
        let count = range_count_of(a, b, c);
        if count == 0 || count > usize::MAX as u128 {
            return Err(TraceError::EmptyRange);
        }
        let count = count as usize;
        let start_t: Vec<char> = if n == 1 {
            let mut v: Vec<char> = Vec::new();
            v.push('0');
            v.push('.');
            v.push('0');
            proof {
                reveal_strlit("0.0");
                assert(v@ =~= "0.0"@);
            }
            v
        } else {
            literal_text(&args[0])
        };
        let step_t: Vec<char> = if n == 3 {
            literal_text(&args[2])
        } else {
            let mut v: Vec<char> = Vec::new();
            v.push('1');
            v.push('.');
            v.push('0');
            proof {
                reveal_strlit("1.0");
                assert(v@ =~= "1.0"@);
            }
            v
        };
        let mut dims: Vec<usize> = Vec::new();
        dims.push(count);
        assert(dims@ =~= seq![count]);
        let idx = self.iota_along(dims.as_slice(), 0, Dtype::F32);
        let st = self.constant(string_from_chars(step_t.as_slice()), Dtype::F32);
        self.scale_shift(idx, st, start_t)
    }

    /// `linspace(start, stop, count)`.
    pub fn linspace(&mut self, args: &Vec<Expr>) -> (r: Result<TVal, TraceError>)
        requires
            old(self).wf(),
        ensures
            final(self).wf(),
            match linspace_spec(old(self).graph(), exprs_view(args@)) {
                Ok((g, t)) => r matches Ok(rt) && tval_view(rt) == t && final(self).graph() == g,
                Err(e) => r matches Err(re) && re@ == e,
            },
            final(self).inputs == old(self).inputs,
            final(self).rng == old(self).rng,
            grows(old(self).nodes@, final(self).nodes@),
    {
        proof {
            lemma_exprs_index(args@);
        }
        if args.len() != 3 {
            return Err(TraceError::BuiltinArgs("linspace".to_owned(), args.len()));
        }
        if literal_value(&args[0]).is_none() || literal_value(&args[1]).is_none() {
            return Err(TraceError::NotLiteral("linspace".to_owned()));
        }
        let n = match count_literal(&args[2]) {
            None => {
                return Err(TraceError::NotCount("linspace".to_owned()));
            },
            Some(n) => n,
        };
        if n == 0 {
            return Err(TraceError::EmptyRange);
        }
        let start_t = literal_text(&args[0]);
        let stop_t = literal_text(&args[1]);
        let mut dims: Vec<usize> = Vec::new();
        dims.push(n);
        assert(dims@ =~= seq![n]);
        let idx = self.iota_along(dims.as_slice(), 0, Dtype::F32);
        if n == 1 {
            let st = self.constant("0.0".to_owned(), Dtype::F32);
            return self.scale_shift(idx, st, start_t);
        }
        let a = self.constant(string_from_chars(stop_t.as_slice()), Dtype::F32);
        let b = self.constant(string_from_chars(start_t.as_slice()), Dtype::F32);
        let d = match self.ewise("subtract", a, b) {
            Err(x) => {
                return Err(x);
            },
            Ok(v) => v,
        };
        let ct = count_text_of(n - 1);
        let c = self.constant(string_from_chars(ct.as_slice()), Dtype::F32);
        let st = match self.ewise("divide", d, c) {
            Err(x) => {
                return Err(x);
            },
            Ok(v) => v,
        };
        self.scale_shift(idx, st, start_t)
    }

    /// `zeros(d1, d2, ..)`.
    pub fn zeros_builtin(&mut self, args: &Vec<Expr>) -> (r: Result<TVal, TraceError>)
        requires
            old(self).wf(),
        ensures
            final(self).wf(),
            match zeros_spec(old(self).graph(), exprs_view(args@)) {
                Ok((g, t)) => r matches Ok(rt) && tval_view(rt) == t && final(self).graph() == g,
                Err(e) => r matches Err(re) && re@ == e,
            },
            final(self).inputs == old(self).inputs,
            final(self).rng == old(self).rng,
            grows(old(self).nodes@, final(self).nodes@),
    {
        let ghost av = exprs_view(args@);
        proof {
            lemma_exprs_index(args@);
        }
        if args.len() == 0 {
            return Err(TraceError::BuiltinArgs("zeros".to_owned(), 0));
        }
        let mut dims: Vec<usize> = Vec::new();
        let mut k: usize = 0;
        while k < args.len()
            invariant
                av == exprs_view(args@),
                av.len() == args@.len(),
                forall|m: int| 0 <= m < args@.len() ==> #[trigger] av[m] == expr_view(args@[m]),
                k <= args@.len(),
                dims@.len() == k,
                forall|m: int| 0 <= m < k ==> count_value(#[trigger] av[m]) == Some(dims@[m] as nat),
                self.wf(),
                self.nodes@ == old(self).nodes@,
                self.interned@ == old(self).interned@,
                self.inputs == old(self).inputs,
                self.rng == old(self).rng,
            decreases args.len() - k,
        {
            match count_literal(&args[k]) {
                None => {
                    assert(count_value(av[k as int]) is None);
                    return Err(TraceError::NotCount("zeros".to_owned()));
                },
                Some(d) => {
                    dims.push(d);
                },
            }
            k = k + 1;
        }
        assert(dims@ =~= Seq::new(av.len(), |m: int| count_value(av[m])->0 as usize));
        let val = self.zeros(dims.as_slice(), Dtype::F32);
        Ok(TVal::Tensor(BVal { val, bdims: 0 }))
    }

    /// A built-in that reads its arguments as literals, or traces them itself.
    #[verifier::rlimit(80)]
    fn literal_builtin(&mut self, e: &Expr, env: &Vec<(String, TVal)>, prog: &Program, depth: usize) -> (r: Result<
        TVal,
        TraceError,
    >)
        requires
            old(self).wf(),
            e matches Expr::Call(n, _) && literal_builtin(n@),
        ensures
            final(self).wf(),
            match lit_builtin_spec(
                old(self).graph(),
                (*e)->Call_0@,
                exprs_view((*e)->Call_1@),
                tfields_view(env@),
                decls_view(prog.fns@),
                depth as nat,
            ) {
                Ok((g, t)) => r matches Ok(rv) && tval_view(rv) == t && final(self).graph() == g,
                Err(x) => r matches Err(rx) && rx@ == x,
            },
            final(self).inputs == old(self).inputs,
            final(self).rng == old(self).rng,
            grows(old(self).nodes@, final(self).nodes@),
        decreases depth, e, 0int,
    {
        let (name, args) = match e {
            Expr::Call(name, args) => (name, args),
            _ => {
                return Err(TraceError::CallDepth);
            },
        };
        proof {
            assert(decreases_to!(*e => (*e)->Call_1));
            lemma_exprs_index(args@);
        }
        if str_eq(name.as_str(), "arange") {
            return self.arange(args);
        }
        if str_eq(name.as_str(), "linspace") {
            return self.linspace(args);
        }
        if str_eq(name.as_str(), "zeros") {
            return self.zeros_builtin(args);
        }
        if str_eq(name.as_str(), "load") {
            return Err(load_error(args));
        }
        if args.len() != 1 {
            return Err(TraceError::BuiltinArgs(name.clone(), args.len()));
        }
        proof {
            assert(decreases_to!(*args => args@));
            assert(decreases_to!(args@ => args@[0]));
        }
        let v = match self.trace(&args[0], env, prog, depth) {
            Err(x) => {
                return Err(x);
            },
            Ok(v) => v,
        };
        let b = match v {
            TVal::Record(_) => {
                return Err(TraceError::RecordArgument(name.clone()));
            },
            TVal::Tensor(b) => b,
        };
        if !self.usable(&b) {
            return Err(TraceError::Unusable);
        }
        let per = per_shape(&b);
        if per.len() == 0 {
            return Err(TraceError::ScalarArgument(name.clone()));
        }
        let t = count_text_of(per[0]);
        let val = self.constant(string_from_chars(t.as_slice()), Dtype::F32);
        Ok(TVal::Tensor(BVal { val, bdims: 0 }))
    }
}


} // verus!
