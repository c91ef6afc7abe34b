//! The envelope of the block transport: requests, responses, and what a
//! client and a server make of them. Sockets and the wire format are left
//! to the caller.

use vstd::prelude::*;

verus! {

/// Largest frame, in bytes, that one side sends the other.
pub const FRAME_LIMIT: usize = 8192;

/// Length of the block that the server answers a read with.
pub const STUB_BLOCK_LEN: usize = 1024;

/// Network request types
#[derive(Debug)]
pub enum Request {
    ReadBlock { block_num: u32 },
    WriteBlock { block_num: u32, data: Vec<u8> },
    Ping,
}

/// A request in contracts.
pub enum RequestView {
    ReadBlock { block_num: u32 },
    WriteBlock { block_num: u32, data: Seq<u8> },
    Ping,
}

impl View for Request {
    type V = RequestView;

    open spec fn view(&self) -> RequestView {
        match *self {
            Request::ReadBlock { block_num } => RequestView::ReadBlock { block_num },
            Request::WriteBlock { block_num, data } => RequestView::WriteBlock {
                block_num,
                data: data@,
            },
            Request::Ping => RequestView::Ping,
        }
    }
}

/// Network response types
#[derive(Debug)]
pub enum Response {
    BlockData { data: Vec<u8> },
    Success,
    Error { message: String },
    Pong,
}

/// A response in contracts.
pub enum ResponseView {
    BlockData { data: Seq<u8> },
    Success,
    Error { message: Seq<char> },
    Pong,
}

impl View for Response {
    type V = ResponseView;

    open spec fn view(&self) -> ResponseView {
        match *self {
            Response::BlockData { data } => ResponseView::BlockData { data: data@ },
            Response::Success => ResponseView::Success,
            Response::Error { message } => ResponseView::Error { message: message@ },
            Response::Pong => ResponseView::Pong,
        }
    }
}

/// Why a client call failed.
#[derive(Debug)]
pub enum NetError {
    /// The node index is not below the number of nodes.
    InvalidNode,
    /// The server answered with an error and this message.
    Remote(String),
    /// The server answered with a response that does not fit the request.
    Unexpected,
}

/// A client error in contracts.
pub enum NetErrorView {
    InvalidNode,
    Remote(Seq<char>),
    Unexpected,
}

impl View for NetError {
    type V = NetErrorView;

    open spec fn view(&self) -> NetErrorView {
        match *self {
            NetError::InvalidNode => NetErrorView::InvalidNode,
            NetError::Remote(message) => NetErrorView::Remote(message@),
            NetError::Unexpected => NetErrorView::Unexpected,
        }
    }
}

/// The server's answer to a request: a ping is answered with a pong, a
/// read with a block of zeros, a write with success.
pub open spec fn reply_to(request: RequestView) -> ResponseView {
    match request {
        RequestView::Ping => ResponseView::Pong,
        RequestView::ReadBlock { block_num } => ResponseView::BlockData {
            data: Seq::new(STUB_BLOCK_LEN as nat, |i: int| 0u8),
        },
        RequestView::WriteBlock { block_num, data } => ResponseView::Success,
    }
}

/// What a client makes of the answer to a read.
pub open spec fn read_outcome(response: ResponseView) -> Result<Seq<u8>, NetErrorView> {
    match response {
        ResponseView::BlockData { data } => Ok(data),
        ResponseView::Error { message } => Err(NetErrorView::Remote(message)),
        _ => Err(NetErrorView::Unexpected),
    }
}

/// What a client makes of the answer to a write.
pub open spec fn write_outcome(response: ResponseView) -> Result<(), NetErrorView> {
    match response {
        ResponseView::Success => Ok(()),
        ResponseView::Error { message } => Err(NetErrorView::Remote(message)),
        _ => Err(NetErrorView::Unexpected),
    }
}

/// Answers one request.
pub fn process_request(request: Request) -> (response: Response)
    ensures
        response@ == reply_to(request@),
{
    match request {
        Request::Ping => Response::Pong,
        Request::ReadBlock { block_num: _ } => {
            let data: Vec<u8> = vec![0u8; STUB_BLOCK_LEN];
            assert(data@ =~= Seq::new(STUB_BLOCK_LEN as nat, |i: int| 0u8));
            Response::BlockData { data }
        },
        Request::WriteBlock { block_num: _, data: _ } => Response::Success,
    }
}

/// Whether a connection goes on after a read of `n` bytes: a read of no
/// bytes means that the peer closed it.
pub fn connection_open(n: usize) -> (open: bool)
    ensures
        open == (n != 0),
{
    n != 0
}

/// Network server for distributed BWFS
pub struct NetworkServer {
    port: u16,
}

impl NetworkServer {
    /// The port the server listens on.
    pub closed spec fn port_spec(&self) -> u16 {
        self.port
    }

    pub fn new(port: u16) -> (r: Self)
        ensures
            r.port_spec() == port,
    {
        Self { port }
    }

    /// The port the server listens on, on every address of the host.
    pub fn port(&self) -> (r: u16)
        ensures
            r == self.port_spec(),
    {
        self.port
    }
}

/// Network client for accessing remote blocks
pub struct NetworkClient {
    nodes: Vec<String>,
}

impl NetworkClient {
    /// The addresses of the nodes.
    pub closed spec fn nodes(&self) -> Seq<Seq<char>> {
        self.nodes@.map_values(|n: String| n@)
    }

    pub fn new(nodes: Vec<String>) -> (r: Self)
        ensures
            r.nodes() == nodes@.map_values(|n: String| n@),
    {
        Self { nodes }
    }

    /// The address of node `node_idx`, or the error for an index that names
    /// no node.
    fn node(&self, node_idx: usize) -> (r: Result<String, NetError>)
        ensures
            match r {
                Ok(addr) => node_idx < self.nodes().len() && addr@ == self.nodes()[node_idx as int],
                Err(e) => node_idx >= self.nodes().len() && e@ == NetErrorView::InvalidNode,
            },
    {
        if node_idx >= self.nodes.len() {
            return Err(NetError::InvalidNode);
        }
        Ok(self.nodes[node_idx].clone())
    }

    /// Reading a block from a remote node, first half: the address to
    /// connect to and the request to send. Fails exactly when `node_idx`
    /// names no node.
    pub fn read_block(&self, node_idx: usize, block_num: u32) -> (r: Result<(String, Request), NetError>)
        ensures
            match r {
                Ok((addr, request)) => {
                    &&& node_idx < self.nodes().len()
                    &&& addr@ == self.nodes()[node_idx as int]
                    &&& request@ == RequestView::ReadBlock { block_num }
                },
                Err(e) => node_idx >= self.nodes().len() && e@ == NetErrorView::InvalidNode,
            },
    {
        match self.node(node_idx) {
            Ok(addr) => Ok((addr, Request::ReadBlock { block_num })),
            Err(e) => Err(e),
        }
    }

    /// Reading a block from a remote node, second half: the block out of
    /// the server's answer.
    pub fn read_block_reply(response: Response) -> (r: Result<Vec<u8>, NetError>)
        ensures
            match r {
                Ok(data) => read_outcome(response@) == Ok::<Seq<u8>, NetErrorView>(data@),
                Err(e) => read_outcome(response@) == Err::<Seq<u8>, NetErrorView>(e@),
            },
    {
        match response {
            Response::BlockData { data } => Ok(data),
            Response::Error { message } => Err(NetError::Remote(message)),
            _ => Err(NetError::Unexpected),
        }
    }

    /// Writing a block to a remote node, first half: the address to connect
    /// to and the request to send. Fails exactly when `node_idx` names no
    /// node.
    pub fn write_block(&self, node_idx: usize, block_num: u32, data: Vec<u8>) -> (r: Result<
        (String, Request),
        NetError,
    >)
        ensures
            match r {
                Ok((addr, request)) => {
                    &&& node_idx < self.nodes().len()
                    &&& addr@ == self.nodes()[node_idx as int]
                    &&& request@ == RequestView::WriteBlock { block_num, data: data@ }
                },
                Err(e) => node_idx >= self.nodes().len() && e@ == NetErrorView::InvalidNode,
            },
    {
        match self.node(node_idx) {
            Ok(addr) => Ok((addr, Request::WriteBlock { block_num, data })),
            Err(e) => Err(e),
        }
    }

    /// Writing a block to a remote node, second half: whether the server's
    /// answer confirms the write.
    pub fn write_block_reply(response: Response) -> (r: Result<(), NetError>)
        ensures
            match r {
                Ok(()) => write_outcome(response@) == Ok::<(), NetErrorView>(()),
                Err(e) => write_outcome(response@) == Err::<(), NetErrorView>(e@),
            },
    {
        match response {
            Response::Success => Ok(()),
            Response::Error { message } => Err(NetError::Remote(message)),
            _ => Err(NetError::Unexpected),
        }
    }
}

} // verus!
