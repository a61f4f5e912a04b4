//! The bus abstraction the driver is written against, and two in-memory
//! realizations of it.
//!
//! A transport carries three concerns of the physical layer: opcode bytes
//! (command framing), parameter bytes (data framing), and the reset line,
//! plus the settle delays the controller's timing requires.  Its observable
//! behaviour is a log of [`TxEvent`] values; every method's contract says
//! how the log grows on success.  On failure nothing is promised about the
//! log: a partial transaction cannot be resumed, so callers abort.

use vstd::prelude::*;

use crate::protocol::TxEvent;
use crate::protocol::byte_events;

verus! {

/// Where a failed transport operation failed: on the command/data bus
/// itself, or on a pin (reset line or mode line).
#[derive(Clone, Copy, Debug, PartialEq, Eq, Structural)]
pub enum TransportFault {
    /// The bus write failed.
    Bus,
    /// A pin write failed.
    Pin,
}

/// A blocking, write-only panel bus with a reset line and a delay source.
///
/// Implementations outside this crate drive real hardware; the contracts
/// below are the whole interface the verified driver relies on.  A method
/// that returns `Ok` has appended exactly its own events to the log; a
/// method that returns `Err` may have emitted any prefix of them, which is
/// why the driver never retries.
pub trait Transport: Sized {
    /// The log of everything sent so far, oldest first.
    ///
    /// A recording implementation overrides this with its real log, and
    /// the method contracts below are then checked facts about it.  An
    /// outside hardware implementation leaves the default, under which
    /// the contracts are this library's assumptions about the wire.
    open spec fn events(&self) -> Seq<TxEvent> {
        Seq::empty()
    }

    /// Send one opcode byte with the command line active.
    fn send_command(&mut self, c: u8) -> (r: Result<(), TransportFault>)
        ensures
            r is Ok ==> final(self).events() == old(self).events().push(TxEvent::Cmd(c)),
    ;

    /// Send parameter bytes, in order, with the data line active.
    fn send_data(&mut self, data: &[u8]) -> (r: Result<(), TransportFault>)
        ensures
            r is Ok ==> final(self).events() == old(self).events() + byte_events(data@),
    ;

    /// Drive the reset line high.
    fn set_reset_high(&mut self) -> (r: Result<(), TransportFault>)
        ensures
            r is Ok ==> final(self).events() == old(self).events().push(TxEvent::ResetHigh),
    ;

    /// Drive the reset line low.
    fn set_reset_low(&mut self) -> (r: Result<(), TransportFault>)
        ensures
            r is Ok ==> final(self).events() == old(self).events().push(TxEvent::ResetLow),
    ;

    /// Block for at least `us` microseconds.  A pure wait: it cannot fail
    /// and sends nothing, but it is logged so that contracts can place
    /// settle delays relative to bus traffic.
    fn delay_us(&mut self, us: u32)
        ensures
            final(self).events() == old(self).events().push(TxEvent::DelayUs(us)),
    ;
}

/// A transport that performs no I/O at all: it only records the log.
///
/// Every operation succeeds.  Useful to inspect the exact byte stream a
/// drawing call produces.
pub struct Recorder {
    /// Everything sent so far, oldest first.
    pub log: Vec<TxEvent>,
}

impl Recorder {
    /// An empty recorder.
    pub fn new() -> (r: Recorder)
        ensures
            r.events() == Seq::<TxEvent>::empty(),
    {
        Recorder { log: Vec::new() }
    }
}

impl Transport for Recorder {
    open spec fn events(&self) -> Seq<TxEvent> {
        self.log@
    }

    fn send_command(&mut self, c: u8) -> (r: Result<(), TransportFault>)
        ensures
            r is Ok,
    {
        self.log.push(TxEvent::Cmd(c));
        Ok(())
    }

    fn send_data(&mut self, data: &[u8]) -> (r: Result<(), TransportFault>)
        ensures
            r is Ok,
    {
        let mut i: usize = 0;
        while i < data.len()
            invariant
                i <= data.len(),
                self.log@ == old(self).log@ + byte_events(data@.take(i as int)),
            decreases data.len() - i,
        {
            let b = data[i];
            self.log.push(TxEvent::Byte(b));
            proof {
                assert(old(self).log@ + byte_events(data@.take(i as int)) + seq![
                    TxEvent::Byte(data@[i as int]),
                ] =~= old(self).log@ + byte_events(data@.take(i as int + 1)));
            }
            i = i + 1;
        }
        proof {
            assert(data@.take(data@.len() as int) =~= data@);
        }
        Ok(())
    }

    fn set_reset_high(&mut self) -> (r: Result<(), TransportFault>)
        ensures
            r is Ok,
    {
        self.log.push(TxEvent::ResetHigh);
        Ok(())
    }

    fn set_reset_low(&mut self) -> (r: Result<(), TransportFault>)
        ensures
            r is Ok,
    {
        self.log.push(TxEvent::ResetLow);
        Ok(())
    }

    fn delay_us(&mut self, us: u32) {
        self.log.push(TxEvent::DelayUs(us));
    }
}

/// A recording transport that starts failing after a set number of
/// operations: the first `budget` fallible operations succeed, every later
/// one fails without logging anything.  Bus operations fail with a bus
/// fault, pin operations with a pin fault; delays never fail.
///
/// This models a wire that drops out mid-transaction, for exercising the
/// driver's abort-on-error paths.
pub struct FlakyTransport {
    /// Everything sent so far, oldest first.
    pub log: Vec<TxEvent>,
    /// How many more fallible operations will succeed.
    pub budget: u32,
}

impl FlakyTransport {
    /// A transport whose first `budget` fallible operations succeed.
    pub fn new(budget: u32) -> (r: FlakyTransport)
        ensures
            r.events() == Seq::<TxEvent>::empty(),
            r.budget == budget,
    {
        FlakyTransport { log: Vec::new(), budget }
    }
}

impl Transport for FlakyTransport {
    open spec fn events(&self) -> Seq<TxEvent> {
        self.log@
    }

    fn send_command(&mut self, c: u8) -> (r: Result<(), TransportFault>)
        ensures
            r is Ok <==> old(self).budget > 0,
            r is Err ==> r == Err::<(), TransportFault>(TransportFault::Bus)
                && final(self).events() == old(self).events(),
    {
        if self.budget == 0 {
            return Err(TransportFault::Bus);
        }
        self.budget = self.budget - 1;
        self.log.push(TxEvent::Cmd(c));
        Ok(())
    }

    fn send_data(&mut self, data: &[u8]) -> (r: Result<(), TransportFault>)
        ensures
            r is Ok <==> old(self).budget > 0,
            r is Err ==> r == Err::<(), TransportFault>(TransportFault::Bus)
                && final(self).events() == old(self).events(),
    {
        if self.budget == 0 {
            return Err(TransportFault::Bus);
        }
        self.budget = self.budget - 1;
        let mut i: usize = 0;
        while i < data.len()
            invariant
                i <= data.len(),
                self.log@ == old(self).log@ + byte_events(data@.take(i as int)),
            decreases data.len() - i,
        {
            let b = data[i];
            self.log.push(TxEvent::Byte(b));
            proof {
                assert(old(self).log@ + byte_events(data@.take(i as int)) + seq![
                    TxEvent::Byte(data@[i as int]),
                ] =~= old(self).log@ + byte_events(data@.take(i as int + 1)));
            }
            i = i + 1;
        }
        proof {
            assert(data@.take(data@.len() as int) =~= data@);
        }
        Ok(())
    }

    fn set_reset_high(&mut self) -> (r: Result<(), TransportFault>)
        ensures
            r is Ok <==> old(self).budget > 0,
            r is Err ==> r == Err::<(), TransportFault>(TransportFault::Pin)
                && final(self).events() == old(self).events(),
    {
        if self.budget == 0 {
            return Err(TransportFault::Pin);
        }
        self.budget = self.budget - 1;
        self.log.push(TxEvent::ResetHigh);
        Ok(())
    }

    fn set_reset_low(&mut self) -> (r: Result<(), TransportFault>)
        ensures
            r is Ok <==> old(self).budget > 0,
            r is Err ==> r == Err::<(), TransportFault>(TransportFault::Pin)
                && final(self).events() == old(self).events(),
    {
        if self.budget == 0 {
            return Err(TransportFault::Pin);
        }
        self.budget = self.budget - 1;
        self.log.push(TxEvent::ResetLow);
        Ok(())
    }

    fn delay_us(&mut self, us: u32) {
        self.log.push(TxEvent::DelayUs(us));
    }
}

} // verus!
