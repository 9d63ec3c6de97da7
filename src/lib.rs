//! Resource-bounded evaluation of untrusted scripts: the byte pipes between
//! host and guest, the host/guest wire protocol, the guest's answer for one
//! evaluation, the classification of a run, the byte-budgeted store of
//! reusable sandbox contexts and the steps of one evaluation request.

pub mod pipe;
pub mod protocol;
pub mod guest;
pub mod outcome;
pub mod store;
pub mod flow;
