//! The exchange that opens a connection: the listener sends the challenge back.

use crate::transport::TransportError;
use vstd::prelude::*;
use vstd::slice::slice_to_vec;

verus! {

/// Draws a challenge with `rand::Rng::try_fill` from `rand::rngs::OsRng`, the random number
/// generator of the operating system, which may fail. Nothing is claimed of the byte.
#[verifier::external_body]
fn draw_challenge() -> (challenge: Option<[u8; 1]>) {
    let mut challenge = [0; 1];
    match rand::Rng::try_fill(&mut rand::rngs::OsRng, &mut challenge) {
        Ok(()) => Some(challenge),
        Err(_) => None,
    }
}

/// The side that opens a connection. Its view is the challenge.
#[derive(Debug, Clone, Copy)]
pub struct ClientHandshake {
    challenge: [u8; 1],
}

impl View for ClientHandshake {
    type V = Seq<u8>;

    closed spec fn view(&self) -> Seq<u8> {
        self.challenge@
    }
}

impl ClientHandshake {
    /// A handshake with the given challenge.
    pub fn new(challenge: [u8; 1]) -> (handshake: Self)
        ensures
            handshake@ == challenge@,
    {
        ClientHandshake { challenge }
    }

    /// A handshake with a random challenge. `None` if the system has no random number to give.
    pub fn start() -> (handshake: Option<Self>)
        ensures
            handshake matches Some(h) ==> h@.len() == 1,
    {
        Self::from_drawn(draw_challenge())
    }

    /// A handshake with the challenge that was drawn, if one was.
    pub fn from_drawn(drawn: Option<[u8; 1]>) -> (handshake: Option<Self>)
        ensures
            match drawn {
                Some(challenge) => handshake matches Some(h) && h@ == challenge@,
                None => handshake is None,
            },
    {
        match drawn {
            Some(challenge) => Some(Self::new(challenge)),
            None => None,
        }
    }

    /// The challenge, which is to be sent to the peer.
    pub fn challenge(&self) -> (challenge: [u8; 1])
        ensures
            challenge@ == self@,
    {
        self.challenge
    }

    /// Ends the handshake with the peer's response. A response that is not the challenge resets
    /// the connection.
    pub fn finish(&self, response: [u8; 1]) -> (result: Result<(), TransportError>)
        ensures
            result == if response@ == self@ {
                Ok::<(), TransportError>(())
            } else {
                Err::<(), TransportError>(TransportError::ConnectionReset)
            },
    {
        if self.challenge[0] != response[0] {
            return Err(TransportError::ConnectionReset);
        }
        assert(self.challenge@ =~= response@);
        Ok(())
    }
}

/// What the listener answers the first packet of a peer with: the same packet.
pub fn accept_reply(challenge: &[u8]) -> (reply: Vec<u8>)
    ensures
        reply@ == challenge@,
{
    slice_to_vec(challenge)
}

/// A client takes the reply of a listener that got its challenge: what is read of the reply into
/// the client's buffer, whatever that held, is the challenge.
pub proof fn law_reply_is_the_challenge(handshake: ClientHandshake, reply: Seq<u8>, buf: Seq<u8>)
    requires
        reply == handshake@,
        buf.len() == handshake@.len(),
    ensures
        crate::transport::delivered(reply, buf) == handshake@,
{
    assert(crate::transport::delivered(reply, buf) =~= handshake@);
}

/// Exactly the response that repeats the challenge opens the connection; any other resets it.
pub proof fn law_only_the_challenge_opens(
    challenge: [u8; 1],
    handshake: ClientHandshake,
    response: [u8; 1],
    result: Result<(), TransportError>,
)
    requires
        call_ensures(ClientHandshake::new, (challenge,), handshake),
        call_ensures(ClientHandshake::finish, (&handshake, response), result),
    ensures
        challenge[0] == response[0] ==> result is Ok,
        challenge[0] != response[0] ==> result == Err::<(), TransportError>(
            TransportError::ConnectionReset,
        ),
{
    if challenge[0] == response[0] {
        assert(challenge@ =~= response@);
    }
}

} // verus!
