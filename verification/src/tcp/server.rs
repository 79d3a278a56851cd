//! The server: one storage engine behind one address, answering one command
//! per connection.

use vstd::prelude::*;
use crate::engine::KvsEngine;
use crate::error::KVSError;
use crate::tcp::protocol::{
    answers, command_outcome, decode_command, invoked, response_frame, DBCommands, Response,
};

verus! {

/// Struct for server with configurable backend (kvs or sled)
pub struct KvsServer<S: KvsEngine> {
    addr: String,
    store: S,
}

impl<S: KvsEngine> KvsServer<S> {
    /// The address the server listens on, as text.
    pub closed spec fn address(&self) -> Seq<char> {
        self.addr@
    }

    /// The engine the server runs its commands on.
    pub closed spec fn engine(&self) -> S {
        self.store
    }

    /// Creates new server object with KvsEngine object
    pub fn new(addr: String, store: S) -> (r: Result<Self, KVSError>)
        ensures
            r matches Ok(server) && server.address() == addr@ && server.engine() == store,
    {
        Ok(KvsServer { addr, store })
    }

    /// The address to bind the listener to.
    pub fn addr(&self) -> (addr: &String)
        ensures
            addr@ == self.address(),
    {
        &self.addr
    }

    /// Serves one connection: decodes the command that `request` holds, runs
    /// it on the engine as [`DBCommands::invoke_cmd`] does, and returns the
    /// frame of the response to exactly that call. A request that does not
    /// decode is answered with nothing: its error is returned and the engine
    /// is not touched.
    pub fn handle_connection(&mut self, request: &[u8]) -> (r: Result<Vec<u8>, KVSError>)
        ensures
            final(self).address() == old(self).address(),
            match decode_command(request@) {
                Err(e) => r == Err::<Vec<u8>, KVSError>(e) && final(self).engine() == old(
                    self,
                ).engine(),
                Ok(command) => r matches Ok(packet) && exists|response: Response|
                    invoked(command, &old(self).engine(), &final(self).engine(), response)
                        && answers(command, response) && packet@ == #[trigger] response_frame(
                        response,
                    ),
            },
    {
        let cmd = match DBCommands::from_stream(request) {
            Ok(cmd) => cmd,
            Err(e) => {
                return Err(e);
            },
        };
        let resp = cmd.invoke_cmd(&mut self.store);
        resp.to_packet()
    }
}

} // verus!
