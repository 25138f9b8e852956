use vstd::prelude::*;

use crate::common::SharedStr;
use crate::stats::stratify::Stratified;

verus! {

/// The unit of an observation's timestamp.
#[derive(Debug, Clone, Copy, PartialEq, Eq, Structural)]
pub enum Timescale {
    Millis,
    Nano,
}

/// One timestamped value of one series.
#[derive(Debug, Clone)]
pub struct Observation<T> {
    pub id: SharedStr,
    pub ts: u64,
    pub timescale: Timescale,
    pub value: T,
    pub stratified: Stratified,
}

impl<T> Observation<T> {
    pub fn stratify(&mut self, stratified: Stratified)
        ensures
            *final(self) == (Observation { stratified, ..*old(self) }),
    {
        self.stratified = stratified
    }
}

} // verus!
