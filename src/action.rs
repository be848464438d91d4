use vstd::prelude::*;
use crate::headers::{
    has_name, lemma_push_keeps_absent, lemma_strip_keeps_absent, same_name, strip, HeaderSeq, Headers,
};

verus! {

/// One declarative change to a header list.
pub enum HeaderOp {
    /// Appends an entry, keeping existing ones of the same name.
    Add(Vec<u8>, Vec<u8>),
    /// Removes every entry of that name.
    Remove(Vec<u8>),
    /// Replaces every entry of that name by a single one.
    Replace(Vec<u8>, Vec<u8>),
}

/// A set of mutations over the headers and the body of a message.
pub struct Modify {
    pub headers: Vec<HeaderOp>,
    /// When present, the message body is replaced by these bytes.
    pub body: Option<Vec<u8>>,
}

/// What a matched rule asks the pipeline to do.
pub enum Action {
    Reject,
    Redirect(String),
    ModifyRequest(Modify),
    ModifyResponse(Modify),
    LogRes,
    LogReq,
    Js(String),
}

pub open spec fn op_effect(h: HeaderSeq, op: HeaderOp) -> HeaderSeq {
    match op {
        HeaderOp::Add(n, v) => h.push((n@, v@)),
        HeaderOp::Remove(n) => strip(h, n@),
        HeaderOp::Replace(n, v) => strip(h, n@).push((n@, v@)),
    }
}

/// The header list after applying `ops` in order.
pub open spec fn ops_effect(h: HeaderSeq, ops: Seq<HeaderOp>) -> HeaderSeq
    decreases ops.len(),
{
    if ops.len() == 0 {
        h
    } else {
        op_effect(ops_effect(h, ops.drop_last()), ops.last())
    }
}

/// The body after a modification: replaced when the modification carries one.
pub open spec fn body_effect(b: Option<Seq<u8>>, m: Modify) -> Option<Seq<u8>> {
    match m.body {
        Some(nb) => Some(nb@),
        None => b,
    }
}

/// The operation adds an entry named `name`.
pub open spec fn op_adds(op: HeaderOp, name: Seq<u8>) -> bool {
    match op {
        HeaderOp::Add(n, _) => same_name(n@, name),
        HeaderOp::Remove(_) => false,
        HeaderOp::Replace(n, _) => same_name(n@, name),
    }
}

/// Some operation of the modification adds an entry named `name`.
pub open spec fn modify_adds(m: Modify, name: Seq<u8>) -> bool {
    exists|k: int| 0 <= k < m.headers@.len() && op_adds(#[trigger] m.headers@[k], name)
}

/// Operations that add no entry named `name` keep it absent.
pub proof fn lemma_ops_keep_absent(h: HeaderSeq, ops: Seq<HeaderOp>, name: Seq<u8>)
    requires
        !has_name(h, name),
        forall|k: int| 0 <= k < ops.len() ==> !op_adds(#[trigger] ops[k], name),
    ensures
        !has_name(ops_effect(h, ops), name),
    decreases ops.len(),
{
    if ops.len() > 0 {
        let f = ops.drop_last();
        assert forall|k: int| 0 <= k < f.len() implies !op_adds(#[trigger] f[k], name) by {
            assert(ops[k] == f[k]);
        }
        lemma_ops_keep_absent(h, f, name);
        let prev = ops_effect(h, f);
        assert(!op_adds(ops[ops.len() - 1], name));
        match ops.last() {
            HeaderOp::Add(n, v) => lemma_push_keeps_absent(prev, (n@, v@), name),
            HeaderOp::Remove(n) => lemma_strip_keeps_absent(prev, n@, name),
            HeaderOp::Replace(n, v) => {
                lemma_strip_keeps_absent(prev, n@, name);
                lemma_push_keeps_absent(strip(prev, n@), (n@, v@), name);
            },
        }
    }
}

pub fn copy_bytes(v: &Vec<u8>) -> (r: Vec<u8>)
    ensures
        r@ == v@,
{
    vstd::slice::slice_to_vec(v.as_slice())
}

/// Applies one header operation.
pub fn apply_op(h: &mut Headers, op: &HeaderOp)
    ensures
        final(h)@ == op_effect(old(h)@, *op),
{
    match op {
        HeaderOp::Add(n, v) => h.append(copy_bytes(n), copy_bytes(v)),
        HeaderOp::Remove(n) => h.remove(n.as_slice()),
        HeaderOp::Replace(n, v) => h.insert(copy_bytes(n), copy_bytes(v)),
    }
}

/// Applies the header operations of `m` in order, then its body replacement.
pub fn apply_modify(h: &mut Headers, body: &mut Option<Vec<u8>>, m: &Modify)
    ensures
        final(h)@ == ops_effect(old(h)@, m.headers@),
        opt_view(*final(body)) == body_effect(opt_view(*old(body)), *m),
{
    let ghost h0 = h@;
    let mut i: usize = 0;
    while i < m.headers.len()
        invariant
            i <= m.headers@.len(),
            h@ == ops_effect(h0, m.headers@.subrange(0, i as int)),
        decreases m.headers@.len() - i,
    {
        apply_op(h, &m.headers[i]);
        assert(m.headers@.subrange(0, i + 1).drop_last() =~= m.headers@.subrange(0, i as int));
        i = i + 1;
    }
    assert(m.headers@.subrange(0, i as int) =~= m.headers@);
    match &m.body {
        Some(nb) => {
            *body = Some(copy_bytes(nb));
        },
        None => {},
    }
}

/// The view of an optional byte buffer.
pub open spec fn opt_view(b: Option<Vec<u8>>) -> Option<Seq<u8>> {
    match b {
        Some(v) => Some(v@),
        None => None,
    }
}

} // verus!
