//! The laws that the contracts rest on hold of the machine integers. They are
//! proved here for the common widths; the other widths go the same way.
use crate::devide_and_conquer::arithmetic::{addition_associates, computes, is_neutral, is_zero};
use crate::sorting::element::{clones_faithfully, lemma_lawful_is_totally_ordered, totally_ordered};
use vstd::prelude::*;

verus! {

/// `i32` is totally ordered and clones faithfully.
pub proof fn lemma_i32_is_totally_ordered()
    ensures
        totally_ordered::<i32>(),
        clones_faithfully::<i32>(),
{
    lemma_lawful_is_totally_ordered::<i32>();
}

/// `i64` is totally ordered and clones faithfully.
pub proof fn lemma_i64_is_totally_ordered()
    ensures
        totally_ordered::<i64>(),
        clones_faithfully::<i64>(),
{
    lemma_lawful_is_totally_ordered::<i64>();
}

/// `u32` is totally ordered and clones faithfully.
pub proof fn lemma_u32_is_totally_ordered()
    ensures
        totally_ordered::<u32>(),
        clones_faithfully::<u32>(),
{
    lemma_lawful_is_totally_ordered::<u32>();
}

/// `u64` is totally ordered and clones faithfully.
pub proof fn lemma_u64_is_totally_ordered()
    ensures
        totally_ordered::<u64>(),
        clones_faithfully::<u64>(),
{
    lemma_lawful_is_totally_ordered::<u64>();
}

/// `i32` computes faithfully, its sums may be regrouped, and its only zero is
/// 0, which adds nothing.
pub proof fn lemma_i32_computes()
    ensures
        computes::<i32>(),
        addition_associates::<i32>(),
        is_neutral(0i32),
        forall|z: i32| is_zero(z) ==> z == 0,
{
}

/// `i64` computes faithfully, its sums may be regrouped, and its only zero is
/// 0, which adds nothing.
pub proof fn lemma_i64_computes()
    ensures
        computes::<i64>(),
        addition_associates::<i64>(),
        is_neutral(0i64),
        forall|z: i64| is_zero(z) ==> z == 0,
{
}

/// `u32` computes faithfully, its sums may be regrouped, and its only zero is
/// 0, which adds nothing.
pub proof fn lemma_u32_computes()
    ensures
        computes::<u32>(),
        addition_associates::<u32>(),
        is_neutral(0u32),
        forall|z: u32| is_zero(z) ==> z == 0,
{
}

/// `u64` computes faithfully, its sums may be regrouped, and its only zero is
/// 0, which adds nothing.
pub proof fn lemma_u64_computes()
    ensures
        computes::<u64>(),
        addition_associates::<u64>(),
        is_neutral(0u64),
        forall|z: u64| is_zero(z) ==> z == 0,
{
}

} // verus!
