use vstd::prelude::*;

verus! {

/// Why an attempt ended early.
#[derive(Clone, Copy, Debug, PartialEq, Eq, Structural)]
pub enum Failure {
    /// The stream could not be dialled or its handshake failed.
    Connect,
    /// The snapshot could not be fetched or read.
    Fetch,
    /// One message could not be read; it is dropped and the stream goes on.
    Parse,
    /// The stream skipped ids; the book is rebuilt from a fresh snapshot.
    Gap,
}

/// Whether a failure counts toward the ceiling of consecutive failures.
pub open spec fn counts(f: Failure) -> bool {
    f == Failure::Connect || f == Failure::Fetch
}

/// The ceiling of consecutive failures was reached: no attempt follows.
#[derive(Clone, Copy, Debug, PartialEq, Eq, Structural)]
pub struct CeilingExceeded {
    /// The number of consecutive failures counted.
    pub failures: u32,
}

/// What the controller holds.
pub struct ControllerView {
    pub ceiling: int,
    pub failures: int,
}

/// Decides whether another attempt starts after a failure, counting
/// consecutive connection and fetch failures against a ceiling. Once the
/// ceiling is reached no further attempt starts.
pub struct ResyncController {
    ceiling: u32,
    failures: u32,
}

impl View for ResyncController {
    type V = ControllerView;

    closed spec fn view(&self) -> ControllerView {
        ControllerView { ceiling: self.ceiling as int, failures: self.failures as int }
    }
}

impl ResyncController {
    /// A controller that stops once `ceiling` consecutive failures are counted.
    pub fn new(ceiling: u32) -> (r: ResyncController)
        ensures
            r@ == (ControllerView { ceiling: ceiling as int, failures: 0 }),
    {
        ResyncController { ceiling, failures: 0 }
    }

    /// The number of consecutive failures counted so far.
    pub fn failures(&self) -> (r: u32)
        ensures
            r == self@.failures,
    {
        self.failures
    }

    /// Whether a new attempt may start.
    pub fn may_start(&self) -> (r: bool)
        ensures
            r == (self@.failures < self@.ceiling),
    {
        self.failures < self.ceiling
    }

    /// Records how an attempt ended. Connection and fetch failures are
    /// counted; once the count reaches the ceiling the controller stops for
    /// good and says so. An attempt that ends in a gap got through connecting
    /// and fetching, so it ends the run of consecutive failures. Parse failures
    /// leave the count as it is.
    pub fn record_failure(&mut self, failure: Failure) -> (r: Result<(), CeilingExceeded>)
        ensures
            final(self)@.ceiling == old(self)@.ceiling,
            final(self)@.failures == if old(self)@.failures >= old(self)@.ceiling {
                old(self)@.failures
            } else if counts(failure) {
                old(self)@.failures + 1
            } else if failure == Failure::Gap {
                0
            } else {
                old(self)@.failures
            },
            r is Ok <==> final(self)@.failures < final(self)@.ceiling,
            r matches Err(e) ==> e.failures == final(self)@.failures,
    {
        if self.failures < self.ceiling {
            match failure {
                Failure::Connect | Failure::Fetch => {
                    self.failures = self.failures + 1;
                },
                Failure::Gap => {
                    self.failures = 0;
                },
                Failure::Parse => {},
            }
        }
        if self.failures < self.ceiling {
            Ok(())
        } else {
            Err(CeilingExceeded { failures: self.failures })
        }
    }

    /// Records that an attempt reached a synchronised book: unless the
    /// controller has already stopped, the count of consecutive failures starts
    /// again from zero.
    pub fn record_success(&mut self)
        ensures
            final(self)@.ceiling == old(self)@.ceiling,
            final(self)@.failures == if old(self)@.failures >= old(self)@.ceiling {
                old(self)@.failures
            } else {
                0
            },
    {
        if self.failures < self.ceiling {
            self.failures = 0;
        }
    }
}

} // verus!
