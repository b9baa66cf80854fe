use vstd::prelude::*;

verus! {

/// Discrete commands a client sends to the server.
#[derive(Debug, Clone, Copy, PartialEq, Eq, Structural)]
pub enum ClientAction {
    /// Toggles the client's readiness in the lobby.
    LobbyReady,
}

/// What the server knows of a connected client in the lobby.
#[derive(Debug, Clone, Copy, PartialEq, Eq, Structural)]
pub struct ClientInfo {
    pub ready: bool,
}

impl ClientInfo {
    /// Applies a lobby command from this client.
    pub fn handle_action(&mut self, action: ClientAction)
        ensures
            action == ClientAction::LobbyReady ==> final(self).ready == !old(self).ready,
    {
        match action {
            ClientAction::LobbyReady => {
                self.ready = !self.ready;
            },
        }
    }
}

impl Default for ClientInfo {
    fn default() -> (r: ClientInfo)
        ensures
            !r.ready,
    {
        ClientInfo { ready: false }
    }
}

/// Whether the lobby moves on to gameplay: more than one client is
/// connected and every one of them is ready.
pub fn lobby_can_start(clients: &Vec<ClientInfo>) -> (r: bool)
    ensures
        r == (clients@.len() > 1 && forall|i: int| 0 <= i < clients@.len() ==> (#[trigger] clients@[i]).ready),
{
    if clients.len() <= 1 {
        return false;
    }
    let mut i: usize = 0;
    while i < clients.len()
        invariant
            i <= clients@.len(),
            forall|k: int| 0 <= k < i ==> (#[trigger] clients@[k]).ready,
        decreases clients@.len() - i,
    {
        if !clients[i].ready {
            return false;
        }
        i = i + 1;
    }
    true
}

} // verus!
