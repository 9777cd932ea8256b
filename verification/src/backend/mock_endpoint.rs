//! A bulk endpoint in memory: what a host sends is queued beforehand, what it is sent is kept.

use std::collections::VecDeque;
use vstd::prelude::*;
use crate::bytes;
use crate::usb::bot::{DataEndpoint, EndpointError};

verus! {

/// The values of a sequence of byte vectors.
pub open spec fn values(packets: Seq<Vec<u8>>) -> Seq<Seq<u8>> {
    Seq::new(packets.len(), |i: int| packets[i]@)
}

/// A bulk endpoint whose host is a queue.
pub struct MockEndpoint {
    read_packets: VecDeque<Vec<u8>>,
    writes: Vec<Vec<u8>>,
    fail_next_read: Option<EndpointError>,
    fail_next_write: Option<EndpointError>,
    disabled_when_empty: bool,
    read_log: Ghost<Seq<Seq<u8>>>,
    error_log: Ghost<Seq<EndpointError>>,
    wait_log: Ghost<Seq<u64>>,
}

/// A `MockEndpoint` as a value.
#[verifier::ext_equal]
pub struct MockEndpointView {
    pub queued: Seq<Seq<u8>>,
    pub written: Seq<Seq<u8>>,
    pub fail_next_read: Option<EndpointError>,
    pub fail_next_write: Option<EndpointError>,
    pub disabled_when_empty: bool,
}

impl MockEndpointView {
    /// What reading a packet into a buffer of `room` bytes answers.
    pub open spec fn read_result(self, room: nat) -> Result<Option<nat>, EndpointError> {
        if self.fail_next_read is Some {
            Err(self.fail_next_read->0)
        } else if self.queued.len() > 0 {
            if self.queued[0].len() > room {
                Err(EndpointError::BufferOverflow)
            } else {
                Ok(Some(self.queued[0].len()))
            }
        } else if self.disabled_when_empty {
            Err(EndpointError::Disabled)
        } else {
            Ok(None)
        }
    }

    /// The endpoint once a packet was to be read.
    pub open spec fn after_read(self) -> MockEndpointView {
        if self.fail_next_read is Some {
            MockEndpointView { fail_next_read: None, ..self }
        } else if self.queued.len() > 0 {
            MockEndpointView { queued: self.queued.drop_first(), ..self }
        } else {
            self
        }
    }
}

impl View for MockEndpoint {
    type V = MockEndpointView;

    closed spec fn view(&self) -> MockEndpointView {
        MockEndpointView {
            queued: values(self.read_packets@),
            written: values(self.writes@),
            fail_next_read: self.fail_next_read,
            fail_next_write: self.fail_next_write,
            disabled_when_empty: self.disabled_when_empty,
        }
    }
}

impl MockEndpoint {
    /// An endpoint with nothing queued, nothing kept, and nothing to fail.
    pub fn new() -> (endpoint: Self)
        ensures
            endpoint@ == (MockEndpointView {
                queued: Seq::empty(),
                written: Seq::empty(),
                fail_next_read: None,
                fail_next_write: None,
                disabled_when_empty: false,
            }),
            endpoint.received().len() == 0,
            endpoint.errors().len() == 0,
            endpoint.waits().len() == 0,
    {
        let endpoint = MockEndpoint {
            read_packets: VecDeque::new(),
            writes: Vec::new(),
            fail_next_read: None,
            fail_next_write: None,
            disabled_when_empty: false,
            read_log: Ghost(Seq::empty()),
            error_log: Ghost(Seq::empty()),
            wait_log: Ghost(Seq::empty()),
        };
        assert(endpoint@.queued =~= Seq::empty());
        assert(endpoint@.written =~= Seq::empty());
        endpoint
    }

    /// The endpoint, which says that it is disabled once the queue is empty where `enabled`.
    pub fn disabled_when_empty(self, enabled: bool) -> (endpoint: Self)
        ensures
            endpoint@ == (MockEndpointView { disabled_when_empty: enabled, ..self@ }),
            endpoint.received() == self.received(),
            endpoint.errors() == self.errors(),
            endpoint.waits() == self.waits(),
    {
        let mut endpoint = self;
        endpoint.disabled_when_empty = enabled;
        endpoint
    }

    /// Queues a packet for the host to send.
    pub fn queue_read_packet(&mut self, packet: Vec<u8>)
        ensures
            final(self)@ == (MockEndpointView {
                queued: old(self)@.queued.push(packet@),
                ..old(self)@
            }),
            final(self).received() == old(self).received(),
            final(self).errors() == old(self).errors(),
            final(self).waits() == old(self).waits(),
    {
        self.read_packets.push_back(packet);
        assert(self@.queued =~= old(self)@.queued.push(packet@));
    }

    pub fn set_fail_next_read(&mut self, error: EndpointError)
        ensures
            final(self)@ == (MockEndpointView { fail_next_read: Some(error), ..old(self)@ }),
            final(self).received() == old(self).received(),
            final(self).errors() == old(self).errors(),
            final(self).waits() == old(self).waits(),
    {
        self.fail_next_read = Some(error);
    }

    pub fn set_fail_next_write(&mut self, error: EndpointError)
        ensures
            final(self)@ == (MockEndpointView { fail_next_write: Some(error), ..old(self)@ }),
            final(self).received() == old(self).received(),
            final(self).errors() == old(self).errors(),
            final(self).waits() == old(self).waits(),
    {
        self.fail_next_write = Some(error);
    }

    /// The packets that were written, oldest first.
    pub fn writes(&self) -> (packets: &[Vec<u8>])
        ensures
            values(packets@) == self@.written,
    {
        self.writes.as_slice()
    }

    /// Hands out the packets that were written, and forgets them.
    pub fn take_writes(&mut self) -> (packets: Vec<Vec<u8>>)
        ensures
            values(packets@) == old(self)@.written,
            final(self)@ == (MockEndpointView { written: Seq::empty(), ..old(self)@ }),
            final(self).received() == old(self).received(),
            final(self).errors() == old(self).errors(),
            final(self).waits() == old(self).waits(),
    {
        let mut packets: Vec<Vec<u8>> = Vec::new();
        std::mem::swap(&mut packets, &mut self.writes);
        assert(self@.written =~= Seq::empty());
        packets
    }
}

impl DataEndpoint for MockEndpoint {
    open spec fn incoming(&self) -> Seq<Seq<u8>> {
        self@.queued
    }

    closed spec fn received(&self) -> Seq<Seq<u8>> {
        self.read_log@
    }

    open spec fn sent(&self) -> Seq<Seq<u8>> {
        self@.written
    }

    closed spec fn errors(&self) -> Seq<EndpointError> {
        self.error_log@
    }

    closed spec fn waits(&self) -> Seq<u64> {
        self.wait_log@
    }

    open spec fn healthy(&self) -> bool {
        self@.fail_next_read is None && self@.fail_next_write is None && !self@.disabled_when_empty
    }

    fn endpoint_read(&mut self, buf: &mut [u8], timeout_ms: u64) -> (r: Result<
        Option<usize>,
        EndpointError,
    >)
        ensures
            final(self)@ == old(self)@.after_read(),
            match old(self)@.read_result(old(buf)@.len()) {
                Ok(Some(len)) => r matches Ok(Some(n)) && n == len,
                Ok(None) => r == Ok::<Option<usize>, EndpointError>(None),
                Err(error) => r == Err::<Option<usize>, EndpointError>(error),
            },
    {
        self.wait_log = Ghost(self.wait_log@.push(timeout_ms));
        if let Some(error) = self.fail_next_read.take() {
            self.error_log = Ghost(self.error_log@.push(error));
            return Err(error);
        }
        if let Some(packet) = self.read_packets.pop_front() {
            assert(self@.queued =~= old(self)@.queued.drop_first());
            if packet.len() > buf.len() {
                self.error_log = Ghost(self.error_log@.push(EndpointError::BufferOverflow));
                return Err(EndpointError::BufferOverflow);
            }
            bytes::put(buf, 0, packet.as_slice());
            self.read_log = Ghost(self.read_log@.push(packet@));
            assert(buf@.take(packet@.len() as int) =~= packet@);
            return Ok(Some(packet.len()));
        }
        if self.disabled_when_empty {
            self.error_log = Ghost(self.error_log@.push(EndpointError::Disabled));
            return Err(EndpointError::Disabled);
        }
        Ok(None)
    }

    fn endpoint_write(&mut self, buf: &[u8]) -> (r: Result<(), EndpointError>)
        ensures
            match old(self)@.fail_next_write {
                Some(error) => {
                    &&& r == Err::<(), EndpointError>(error)
                    &&& final(self)@ == (MockEndpointView { fail_next_write: None, ..old(self)@ })
                },
                None => {
                    &&& r is Ok
                    &&& final(self)@ == (MockEndpointView {
                        written: old(self)@.written.push(buf@),
                        ..old(self)@
                    })
                },
            },
    {
        if let Some(error) = self.fail_next_write.take() {
            self.error_log = Ghost(self.error_log@.push(error));
            return Err(error);
        }
        self.writes.push(vstd::slice::slice_to_vec(buf));
        assert(self@.written =~= old(self)@.written.push(buf@));
        Ok(())
    }
}

} // verus!
