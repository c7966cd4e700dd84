//! Equality and copies of derivations, field by field.

use crate::bytes::{bytes_equal, to_vec};
use crate::types::{
    env_view, inputs_view, opt_view, outputs_view, seqs_view, Derivation, Output,
};
use vstd::prelude::*;

verus! {

pub fn copy_bytes(v: &Vec<u8>) -> (r: Vec<u8>)
    ensures
        r@ == v@,
{
    to_vec(v.as_slice())
}

pub fn copy_opt_bytes(v: &Option<Vec<u8>>) -> (r: Option<Vec<u8>>)
    ensures
        opt_view(r) == opt_view(*v),
{
    match v {
        Some(b) => Some(copy_bytes(b)),
        None => None,
    }
}

pub fn copy_output(o: &Output) -> (r: Output)
    ensures
        r@ == o@,
{
    Output {
        path: copy_bytes(&o.path),
        hash_algorithm: copy_opt_bytes(&o.hash_algorithm),
        hash: copy_opt_bytes(&o.hash),
    }
}

pub fn opt_bytes_equal(a: &Option<Vec<u8>>, b: &Option<Vec<u8>>) -> (r: bool)
    ensures
        r == (opt_view(*a) == opt_view(*b)),
{
    match (a, b) {
        (Some(x), Some(y)) => bytes_equal(x.as_slice(), y.as_slice()),
        (None, None) => true,
        _ => false,
    }
}

pub fn same_output(a: &Output, b: &Output) -> (r: bool)
    ensures
        r == (a@ == b@),
{
    bytes_equal(a.path.as_slice(), b.path.as_slice()) && opt_bytes_equal(
        &a.hash_algorithm,
        &b.hash_algorithm,
    ) && opt_bytes_equal(&a.hash, &b.hash)
}

pub fn copy_byte_list(v: &Vec<Vec<u8>>) -> (r: Vec<Vec<u8>>)
    ensures
        seqs_view(r@) == seqs_view(v@),
{
    let mut r: Vec<Vec<u8>> = Vec::new();
    let mut i: usize = 0;
    while i < v.len()
        invariant
            i <= v@.len(),
            seqs_view(r@) == seqs_view(v@.take(i as int)),
        decreases v@.len() - i,
    {
        r.push(copy_bytes(&v[i]));
        assert(seqs_view(v@.take(i + 1)) =~= seqs_view(v@.take(i as int)).push(v@[i as int]@));
        assert(seqs_view(r@) =~= seqs_view(v@.take(i + 1)));
        i = i + 1;
    }
    assert(v@.take(i as int) =~= v@);
    r
}

pub fn same_byte_lists(a: &Vec<Vec<u8>>, b: &Vec<Vec<u8>>) -> (r: bool)
    ensures
        r == (seqs_view(a@) == seqs_view(b@)),
{
    if a.len() != b.len() {
        assert(seqs_view(a@).len() != seqs_view(b@).len());
        return false;
    }
    let mut i: usize = 0;
    while i < a.len()
        invariant
            i <= a@.len(),
            a@.len() == b@.len(),
            seqs_view(a@.take(i as int)) == seqs_view(b@.take(i as int)),
        decreases a@.len() - i,
    {
        if !bytes_equal(a[i].as_slice(), b[i].as_slice()) {
            assert(seqs_view(a@)[i as int] != seqs_view(b@)[i as int]);
            return false;
        }
        assert(seqs_view(a@.take(i + 1)) =~= seqs_view(a@.take(i as int)).push(a@[i as int]@));
        assert(seqs_view(b@.take(i + 1)) =~= seqs_view(b@.take(i as int)).push(b@[i as int]@));
        i = i + 1;
    }
    assert(a@.take(i as int) =~= a@);
    assert(b@.take(i as int) =~= b@);
    true
}

fn copy_outputs(v: &Vec<(Vec<u8>, Output)>) -> (r: Vec<(Vec<u8>, Output)>)
    ensures
        outputs_view(r@) == outputs_view(v@),
{
    let mut r: Vec<(Vec<u8>, Output)> = Vec::new();
    let mut i: usize = 0;
    while i < v.len()
        invariant
            i <= v@.len(),
            outputs_view(r@) == outputs_view(v@.take(i as int)),
        decreases v@.len() - i,
    {
        r.push((copy_bytes(&v[i].0), copy_output(&v[i].1)));
        assert(outputs_view(v@.take(i + 1)) =~= outputs_view(v@.take(i as int)).push(
            (v@[i as int].0@, v@[i as int].1@),
        ));
        assert(outputs_view(r@) =~= outputs_view(v@.take(i + 1)));
        i = i + 1;
    }
    assert(v@.take(i as int) =~= v@);
    r
}

fn same_outputs(a: &Vec<(Vec<u8>, Output)>, b: &Vec<(Vec<u8>, Output)>) -> (r: bool)
    ensures
        r == (outputs_view(a@) == outputs_view(b@)),
{
    if a.len() != b.len() {
        assert(outputs_view(a@).len() != outputs_view(b@).len());
        return false;
    }
    let mut i: usize = 0;
    while i < a.len()
        invariant
            i <= a@.len(),
            a@.len() == b@.len(),
            outputs_view(a@.take(i as int)) == outputs_view(b@.take(i as int)),
        decreases a@.len() - i,
    {
        if !bytes_equal(a[i].0.as_slice(), b[i].0.as_slice()) || !same_output(&a[i].1, &b[i].1) {
            assert(outputs_view(a@)[i as int] != outputs_view(b@)[i as int]);
            return false;
        }
        assert(outputs_view(a@.take(i + 1)) =~= outputs_view(a@.take(i as int)).push(
            (a@[i as int].0@, a@[i as int].1@),
        ));
        assert(outputs_view(b@.take(i + 1)) =~= outputs_view(b@.take(i as int)).push(
            (b@[i as int].0@, b@[i as int].1@),
        ));
        i = i + 1;
    }
    assert(a@.take(i as int) =~= a@);
    assert(b@.take(i as int) =~= b@);
    true
}

fn copy_inputs(v: &Vec<(Vec<u8>, Vec<Vec<u8>>)>) -> (r: Vec<(Vec<u8>, Vec<Vec<u8>>)>)
    ensures
        inputs_view(r@) == inputs_view(v@),
{
    let mut r: Vec<(Vec<u8>, Vec<Vec<u8>>)> = Vec::new();
    let mut i: usize = 0;
    while i < v.len()
        invariant
            i <= v@.len(),
            inputs_view(r@) == inputs_view(v@.take(i as int)),
        decreases v@.len() - i,
    {
        r.push((copy_bytes(&v[i].0), copy_byte_list(&v[i].1)));
        assert(inputs_view(v@.take(i + 1)) =~= inputs_view(v@.take(i as int)).push(
            (v@[i as int].0@, seqs_view(v@[i as int].1@)),
        ));
        assert(inputs_view(r@) =~= inputs_view(v@.take(i + 1)));
        i = i + 1;
    }
    assert(v@.take(i as int) =~= v@);
    r
}

fn same_inputs(a: &Vec<(Vec<u8>, Vec<Vec<u8>>)>, b: &Vec<(Vec<u8>, Vec<Vec<u8>>)>) -> (r: bool)
    ensures
        r == (inputs_view(a@) == inputs_view(b@)),
{
    if a.len() != b.len() {
        assert(inputs_view(a@).len() != inputs_view(b@).len());
        return false;
    }
    let mut i: usize = 0;
    while i < a.len()
        invariant
            i <= a@.len(),
            a@.len() == b@.len(),
            inputs_view(a@.take(i as int)) == inputs_view(b@.take(i as int)),
        decreases a@.len() - i,
    {
        if !bytes_equal(a[i].0.as_slice(), b[i].0.as_slice()) || !same_byte_lists(&a[i].1, &b[i].1) {
            assert(inputs_view(a@)[i as int] != inputs_view(b@)[i as int]);
            return false;
        }
        assert(inputs_view(a@.take(i + 1)) =~= inputs_view(a@.take(i as int)).push(
            (a@[i as int].0@, seqs_view(a@[i as int].1@)),
        ));
        assert(inputs_view(b@.take(i + 1)) =~= inputs_view(b@.take(i as int)).push(
            (b@[i as int].0@, seqs_view(b@[i as int].1@)),
        ));
        i = i + 1;
    }
    assert(a@.take(i as int) =~= a@);
    assert(b@.take(i as int) =~= b@);
    true
}

fn copy_env(v: &Vec<(Vec<u8>, Vec<u8>)>) -> (r: Vec<(Vec<u8>, Vec<u8>)>)
    ensures
        env_view(r@) == env_view(v@),
{
    let mut r: Vec<(Vec<u8>, Vec<u8>)> = Vec::new();
    let mut i: usize = 0;
    while i < v.len()
        invariant
            i <= v@.len(),
            env_view(r@) == env_view(v@.take(i as int)),
        decreases v@.len() - i,
    {
        r.push((copy_bytes(&v[i].0), copy_bytes(&v[i].1)));
        assert(env_view(v@.take(i + 1)) =~= env_view(v@.take(i as int)).push(
            (v@[i as int].0@, v@[i as int].1@),
        ));
        assert(env_view(r@) =~= env_view(v@.take(i + 1)));
        i = i + 1;
    }
    assert(v@.take(i as int) =~= v@);
    r
}

fn same_env(a: &Vec<(Vec<u8>, Vec<u8>)>, b: &Vec<(Vec<u8>, Vec<u8>)>) -> (r: bool)
    ensures
        r == (env_view(a@) == env_view(b@)),
{
    if a.len() != b.len() {
        assert(env_view(a@).len() != env_view(b@).len());
        return false;
    }
    let mut i: usize = 0;
    while i < a.len()
        invariant
            i <= a@.len(),
            a@.len() == b@.len(),
            env_view(a@.take(i as int)) == env_view(b@.take(i as int)),
        decreases a@.len() - i,
    {
        if !bytes_equal(a[i].0.as_slice(), b[i].0.as_slice()) || !bytes_equal(a[i].1.as_slice(), b[i].1.as_slice()) {
            assert(env_view(a@)[i as int] != env_view(b@)[i as int]);
            return false;
        }
        assert(env_view(a@.take(i + 1)) =~= env_view(a@.take(i as int)).push(
            (a@[i as int].0@, a@[i as int].1@),
        ));
        assert(env_view(b@.take(i + 1)) =~= env_view(b@.take(i as int)).push(
            (b@[i as int].0@, b@[i as int].1@),
        ));
        i = i + 1;
    }
    assert(a@.take(i as int) =~= a@);
    assert(b@.take(i as int) =~= b@);
    true
}

impl Derivation {
    /// A copy of this derivation.
    pub fn copy(&self) -> (r: Derivation)
        ensures
            r@ == self@,
    {
        Derivation {
            outputs: copy_outputs(&self.outputs),
            input_sources: copy_byte_list(&self.input_sources),
            input_derivations: copy_inputs(&self.input_derivations),
            platform: copy_bytes(&self.platform),
            builder: copy_bytes(&self.builder),
            args: copy_byte_list(&self.args),
            env: copy_env(&self.env),
        }
    }

    /// Whether two derivations are equal in every field.
    pub fn same_as(&self, other: &Derivation) -> (r: bool)
        ensures
            r == (self@ == other@),
    {
        same_outputs(&self.outputs, &other.outputs) && same_byte_lists(
            &self.input_sources,
            &other.input_sources,
        ) && same_inputs(&self.input_derivations, &other.input_derivations) && bytes_equal(
            self.platform.as_slice(),
            other.platform.as_slice(),
        ) && bytes_equal(self.builder.as_slice(), other.builder.as_slice()) && same_byte_lists(
            &self.args,
            &other.args,
        ) && same_env(&self.env, &other.env)
    }
}

} // verus!
