//! A minimal read/write interface over membership stores.
//!
//! This is the narrow surface a consumer needs when it only inserts string
//! values and asks whether they might have been seen: acquire and release
//! around use, `set` to record, `check` to query. The interface promises
//! that a recorded value reports as recorded, that nothing recorded is ever
//! forgotten, and that `check` answers exactly the store's abstract report.
//! Containers implement it by hashing the string's UTF-8 bytes into their
//! filter.

use vstd::prelude::*;

use vstd::string::StringSliceAdditionalSpecFns;
use vstd::utf8::encode_utf8;

use crate::container::{model_check, Container};

verus! {

/// A store of string values supporting insertion and membership queries.
pub trait ReaderWriter {
    /// When the store accepts operations.
    spec fn rw_wf(&self) -> bool;

    /// The store's abstract report: whether it would answer that this
    /// string of characters could have been recorded.
    spec fn rw_contains(&self, value: Seq<char>) -> bool;

    /// Acquires access to the content. The reports do not change.
    fn acquire(&mut self)
        requires
            old(self).rw_wf(),
        ensures
            final(self).rw_wf(),
            forall|v: Seq<char>| #[trigger]
                final(self).rw_contains(v) == old(self).rw_contains(v),
    ;

    /// Releases access to the content. The reports do not change.
    fn release(&mut self)
        requires
            old(self).rw_wf(),
        ensures
            final(self).rw_wf(),
            forall|v: Seq<char>| #[trigger]
                final(self).rw_contains(v) == old(self).rw_contains(v),
    ;

    /// Records a value: it reports as recorded afterwards, and no earlier
    /// report is forgotten.
    fn set(&mut self, value: &String)
        requires
            old(self).rw_wf(),
        ensures
            final(self).rw_contains(value@),
            forall|v: Seq<char>|
                old(self).rw_contains(v) ==> #[trigger] final(self).rw_contains(v),
    ;

    /// Reports whether a value could have been recorded before.
    fn check(&self, value: &String) -> (r: bool)
        requires
            self.rw_wf(),
        ensures
            r == self.rw_contains(value@),
    ;
}

impl ReaderWriter for Container {
    /// The container is well formed and its write counter has headroom.
    open spec fn rw_wf(&self) -> bool {
        self.wf() && self.model().num_writes < u64::MAX
    }

    /// The filter's membership report for the string's UTF-8 bytes.
    open spec fn rw_contains(&self, value: Seq<char>) -> bool {
        model_check(self.model(), encode_utf8(value))
    }

    fn acquire(&mut self) {
        Container::acquire(self)
    }

    fn release(&mut self) {
        Container::release(self)
    }

    fn set(&mut self, value: &String) {
        let ghost m0 = self.model();
        let bytes = value.as_str().as_bytes();
        proof {
            assert(bytes@ == encode_utf8(value@));
        }
        Container::set(self, bytes);
        proof {
            crate::container::lemma_set_then_check(m0, bytes@);
            assert forall|v: Seq<char>|
                model_check(m0, encode_utf8(v)) implies #[trigger] self.rw_contains(v) by {
                crate::container::lemma_check_stable(m0, encode_utf8(v), bytes@);
            }
        }
    }

    fn check(&self, value: &String) -> (r: bool) {
        let bytes = value.as_str().as_bytes();
        proof {
            assert(bytes@ == encode_utf8(value@));
        }
        Container::check(self, bytes)
    }
}

} // verus!
