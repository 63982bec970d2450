//! What the ends of an unreliable transport hand over.

use crate::byte_queue::copy_front;
use vstd::prelude::*;

verus! {

/// The system that a socket belongs to, as far as its error numbers matter.
#[derive(Debug, Clone, Copy, PartialEq, Eq, Structural)]
pub enum System {
    /// Linux, but for MIPS.
    Linux,
    /// Linux on MIPS, which numbers errors in its own way.
    LinuxMips,
    /// macOS.
    MacOs,
    /// Any other system.
    Other,
}

impl System {
    /// The error number `code` counts as a socket's word that it has no buffer space.
    ///
    /// That number is 105 on Linux, 132 there on MIPS, and 55 there on SPARC and on macOS. On
    /// Linux 55 counts on every machine. Other systems are not asked.
    pub open spec fn says_no_buffer_space(self, code: i32) -> bool {
        match self {
            System::Linux => code == 105 || code == 55,
            System::LinuxMips => code == 132 || code == 55,
            System::MacOs => code == 55,
            System::Other => false,
        }
    }

    /// Whether the error number `code` counts as a socket's word that it has no buffer space.
    pub fn is_no_buffer_space(self, code: i32) -> (full: bool)
        ensures
            full == self.says_no_buffer_space(code),
    {
        match self {
            System::Linux => code == 105 || code == 55,
            System::LinuxMips => code == 132 || code == 55,
            System::MacOs => code == 55,
            System::Other => false,
        }
    }
}

/// The number 55 counts on Linux, on every machine, and on macOS. Beside it Linux has one number
/// of its own, which depends on the machine. On other systems no number counts.
pub proof fn law_numbers_that_say_no_buffer_space(system: System, code: i32)
    ensures
        system != System::Other ==> system.says_no_buffer_space(55),
        system == System::Other ==> !system.says_no_buffer_space(code),
        System::Linux.says_no_buffer_space(105),
        System::LinuxMips.says_no_buffer_space(132),
        system.says_no_buffer_space(code) && code != 55 ==> {
            ||| system == System::Linux && code == 105
            ||| system == System::LinuxMips && code == 132
        },
{
}

/// Why a transport failed.
#[derive(Debug, Clone, Copy, PartialEq, Eq, Structural)]
pub enum TransportError {
    /// No packet is there yet.
    WouldBlock,
    /// No packet will come any more.
    UnexpectedEof,
    /// The peer is not one to talk to.
    ConnectionReset,
}

/// Why a queue gave no packet.
#[derive(Debug, Clone, Copy, PartialEq, Eq, Structural)]
pub enum QueueState {
    /// The queue is empty.
    Empty,
    /// The queue is empty and nothing will be put in it.
    Disconnected,
}

/// Why a socket did not send a packet. `K` is the kind of the error.
#[derive(Debug, Clone, Copy)]
pub struct SendFailure<K> {
    /// The error number of the system, if it gave one.
    pub raw_os_error: Option<i32>,
    /// The kind of the error.
    pub kind: K,
}

/// How many bytes of a packet of `len` bytes a buffer of `room` bytes takes.
pub open spec fn delivered_len(len: nat, room: nat) -> nat {
    crate::byte_queue::shorter(room, len)
}

/// The content of a buffer that held `buf` once `packet` has been delivered to it. What does not
/// fit is cut off.
pub open spec fn delivered(packet: Seq<u8>, buf: Seq<u8>) -> Seq<u8> {
    let n = delivered_len(packet.len(), buf.len()) as int;
    packet.take(n) + buf.skip(n)
}

/// A packet that fits is delivered whole, at the start of the buffer. A longer one fills the
/// buffer with its first bytes. The buffer keeps its length and what lies behind the packet.
pub proof fn law_all_that_fits_is_delivered(packet: Seq<u8>, buf: Seq<u8>)
    ensures
        packet.len() <= buf.len() ==> {
            &&& delivered_len(packet.len(), buf.len()) == packet.len()
            &&& packet.is_prefix_of(delivered(packet, buf))
        },
        packet.len() > buf.len() ==> {
            &&& delivered_len(packet.len(), buf.len()) == buf.len()
            &&& delivered(packet, buf).is_prefix_of(packet)
        },
        delivered(packet, buf).len() == buf.len(),
        forall|i: int|
            packet.len() <= i < buf.len() ==> #[trigger] delivered(packet, buf)[i] == buf[i],
{
}

/// Writes a packet to a buffer, as far as it fits. Returns how many bytes.
pub fn deliver(packet: &[u8], buf: &mut [u8]) -> (written: usize)
    ensures
        written == delivered_len(packet@.len(), old(buf)@.len()),
        final(buf)@ == delivered(packet@, old(buf)@),
{
    let min_len = if buf.len() < packet.len() {
        buf.len()
    } else {
        packet.len()
    };
    copy_front(packet, buf, min_len);
    min_len
}

/// Delivers what a queue of packets gave at once.
pub fn try_recv_packet(received: Result<Vec<u8>, QueueState>, buf: &mut [u8]) -> (result: Result<
    usize,
    TransportError,
>)
    ensures
        match received {
            Ok(packet) => {
                &&& result == Ok::<usize, TransportError>(
                    delivered_len(packet@.len(), old(buf)@.len()) as usize,
                )
                &&& final(buf)@ == delivered(packet@, old(buf)@)
            },
            Err(QueueState::Empty) => {
                &&& result == Err::<usize, TransportError>(TransportError::WouldBlock)
                &&& final(buf)@ == old(buf)@
            },
            Err(QueueState::Disconnected) => {
                &&& result == Err::<usize, TransportError>(TransportError::UnexpectedEof)
                &&& final(buf)@ == old(buf)@
            },
        },
{
    match received {
        Ok(packet) => Ok(deliver(&packet, buf)),
        Err(QueueState::Empty) => Err(TransportError::WouldBlock),
        Err(QueueState::Disconnected) => Err(TransportError::UnexpectedEof),
    }
}

/// Delivers what a queue of packets gave in the end.
pub fn recv_packet(received: Option<Vec<u8>>, buf: &mut [u8]) -> (result: Result<
    usize,
    TransportError,
>)
    ensures
        match received {
            Some(packet) => {
                &&& result == Ok::<usize, TransportError>(
                    delivered_len(packet@.len(), old(buf)@.len()) as usize,
                )
                &&& final(buf)@ == delivered(packet@, old(buf)@)
            },
            None => {
                &&& result == Err::<usize, TransportError>(TransportError::UnexpectedEof)
                &&& final(buf)@ == old(buf)@
            },
        },
{
    match received {
        Some(packet) => Ok(deliver(&packet, buf)),
        None => Err(TransportError::UnexpectedEof),
    }
}

/// What sending a packet on a socket of the given system came to. A socket without buffer space
/// counts as one that has sent nothing, for the packet is as good as lost on the way.
pub fn send_result<K>(
    sent: Result<usize, SendFailure<K>>,
    system: System,
) -> (result: Result<usize, K>)
    ensures
        match sent {
            Ok(n) => result == Ok::<usize, K>(n),
            Err(failure) => if failure.raw_os_error matches Some(code)
                && system.says_no_buffer_space(code) {
                result == Ok::<usize, K>(0)
            } else {
                result == Err::<usize, K>(failure.kind)
            },
        },
{
    match sent {
        Ok(n) => Ok(n),
        Err(failure) => {
            if let Some(code) = failure.raw_os_error {
                if system.is_no_buffer_space(code) {
                    return Ok(0);
                }
            }
            Err(failure.kind)
        },
    }
}

/// What a socket has sent is passed on as it is, and so is the kind of every error but one: a
/// packet for which there was no buffer space counts as sent with no bytes.
pub proof fn law_only_lack_of_buffer_space_is_no_error<K>(
    sent: Result<usize, SendFailure<K>>,
    system: System,
    result: Result<usize, K>,
)
    requires
        call_ensures(send_result::<K>, (sent, system), result),
    ensures
        sent matches Ok(n) ==> result == Ok::<usize, K>(n),
        sent matches Err(failure) ==> {
            &&& failure.raw_os_error == Some(55i32) && system != System::Other ==> result == Ok::<
                usize,
                K,
            >(0)
            &&& failure.raw_os_error is None || system == System::Other ==> result == Err::<
                usize,
                K,
            >(failure.kind)
            &&& result is Ok ==> result->Ok_0 == 0
            &&& result matches Err(kind) ==> kind == failure.kind
        },
{
    law_numbers_that_say_no_buffer_space(system, 55);
}

} // verus!
