//! The place where the client finds the identity token that the server
//! has sent it.

use crate::packet_receiver::ClientSocketError;
use vstd::prelude::*;

verus! {

/// The token by which the server knows a client.
pub type IdentityToken = String;

/// Keeps the identity token from the moment it arrives until the client
/// takes it.
pub struct IdentityReceiverImpl {
    id_cell: Option<IdentityToken>,
}

impl View for IdentityReceiverImpl {
    type V = Option<Seq<char>>;

    closed spec fn view(&self) -> Option<Seq<char>> {
        match self.id_cell {
            Some(token) => Some(token@),
            None => None,
        }
    }
}

impl IdentityReceiverImpl {
    /// A receiver that holds no token.
    pub fn new() -> (receiver: Self)
        ensures
            receiver@ is None,
    {
        IdentityReceiverImpl { id_cell: None }
    }

    /// A token has arrived: it takes the place of one that was not taken.
    pub fn send(&mut self, id_token: IdentityToken)
        ensures
            final(self)@ == Some(id_token@),
    {
        self.id_cell = Some(id_token);
    }

    /// Takes the token, if one has arrived: after that the receiver holds
    /// none. It never fails.
    pub fn receive(&mut self) -> (token: Result<Option<IdentityToken>, ClientSocketError>)
        ensures
            final(self)@ is None,
            match old(self)@ {
                Some(held) => token matches Ok(Some(taken)) && taken@ == held,
                None => token matches Ok(None),
            },
    {
        if self.id_cell.is_some() {
            let token = self.id_cell.take().unwrap();
            return Ok(Some(token));
        } else {
            return Ok(None);
        }
    }
}

} // verus!
