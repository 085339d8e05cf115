//! The command-line client's decisions: where the daemon's socket is, the
//! numbering of requests, and how a JSON-RPC reply is read.
use vstd::prelude::*;

verus! {

/// `PathBuf::push` of a relative path: a `/` goes between unless the base
/// is empty or already ends with one.
pub open spec fn join_path(base: Seq<char>, rel: Seq<char>) -> Seq<char> {
    if base.len() > 0 && base.last() != '/' {
        base + seq!['/'] + rel
    } else {
        base + rel
    }
}

/// Joins a relative path onto a base path.
pub fn join(base: &str, rel: &str) -> (r: String)
    ensures
        r@ == join_path(base@, rel@),
{
    let b = crate::text::to_chars(base);
    let mut out = b.clone();
    if b.len() > 0 && b[b.len() - 1] != '/' {
        out.push('/');
    }
    let r = crate::text::to_chars(rel);
    let ghost pre = out@;
    let mut i: usize = 0;
    while i < r.len()
        invariant
            i <= r@.len(),
            out@ == pre + r@.take(i as int),
        decreases r.len() - i,
    {
        out.push(r[i]);
        i = i + 1;
        assert(out@ =~= pre + r@.take(i as int));
    }
    assert(r@.take(r@.len() as int) =~= r@);
    assert(b@ == base@);
    proof {
        if b@.len() > 0 && b@.last() != '/' {
            assert(pre =~= base@ + seq!['/']);
        }
    }
    crate::text::string_of_all(&out)
}

/// Where the daemon's socket is: `PLUVIA_SOCKET` as given, else
/// `pluvia.sock` in `XDG_RUNTIME_DIR`, else in the user's `/run/user/<uid>`
/// directory when it exists, else under `~/.cache/pluvia`, else in `/tmp`.
pub open spec fn socket_path_choice(
    pluvia_socket: Option<Seq<char>>,
    runtime_dir: Option<Seq<char>>,
    run_user_dir: Option<Seq<char>>,
    home: Option<Seq<char>>,
) -> Seq<char> {
    match pluvia_socket {
        Some(p) => p,
        None => match runtime_dir {
            Some(d) => join_path(d, "pluvia.sock"@),
            None => match run_user_dir {
                Some(d) => join_path(d, "pluvia.sock"@),
                None => match home {
                    Some(h) => join_path(h, ".cache/pluvia/pluvia.sock"@),
                    None => "/tmp/pluvia.sock"@,
                },
            },
        },
    }
}

pub open spec fn ov(o: Option<String>) -> Option<Seq<char>> {
    match o {
        Some(s) => Some(s@),
        None => None,
    }
}

/// Chooses the socket path from the environment's values; `run_user_dir`
/// is the user's `/run/user/<uid>` directory when it exists.
pub fn socket_path_from(
    pluvia_socket: Option<String>,
    runtime_dir: Option<String>,
    run_user_dir: Option<String>,
    home: Option<String>,
) -> (r: String)
    ensures
        r@ == socket_path_choice(ov(pluvia_socket), ov(runtime_dir), ov(run_user_dir), ov(home)),
{
    match pluvia_socket {
        Some(p) => p,
        None => match runtime_dir {
            Some(d) => join(d.as_str(), "pluvia.sock"),
            None => match run_user_dir {
                Some(d) => join(d.as_str(), "pluvia.sock"),
                None => match home {
                    Some(h) => join(h.as_str(), ".cache/pluvia/pluvia.sock"),
                    None => "/tmp/pluvia.sock".to_string(),
                },
            },
        },
    }
}

/// A client of the daemon's JSON-RPC socket.
#[derive(Debug, Clone)]
pub struct PluviaClient {
    socket_path: String,
    next_id: u64,
}

impl View for PluviaClient {
    /// The socket path and the id the next request gets.
    type V = (Seq<char>, u64);

    closed spec fn view(&self) -> (Seq<char>, u64) {
        (self.socket_path@, self.next_id)
    }
}

impl PluviaClient {
    /// A client for the socket at `socket_path`; requests are numbered
    /// from 1.
    pub fn new(socket_path: &str) -> (r: Self)
        ensures
            r@ == (socket_path@, 1u64),
    {
        PluviaClient { socket_path: socket_path.to_string(), next_id: 1 }
    }

    pub fn socket_path(&self) -> (r: &str)
        ensures
            r@ == self@.0,
    {
        self.socket_path.as_str()
    }

    /// Takes the id of the next request; ids count up by one and wrap
    /// around after `u64::MAX`.
    pub fn next_request_id(&mut self) -> (r: u64)
        ensures
            r == old(self)@.1,
            final(self)@.0 == old(self)@.0,
            final(self)@.1 == (if old(self)@.1 == u64::MAX {
                0
            } else {
                old(self)@.1 + 1
            }),
    {
        let id = self.next_id;
        self.next_id = if id == u64::MAX {
            0
        } else {
            id + 1
        };
        id
    }
}

/// What a line read from the socket means for the pending request.
#[derive(Debug, Clone, PartialEq, Eq)]
pub enum ReplyAction {
    /// Not the answer to this request: read on.
    Skip,
    /// The daemon refused the request with this code and message.
    Fail { code: i64, message: String },
    /// The answer: its `result`, or null when it has none.
    Done,
}

/// Reads one reply: blank lines and replies to other ids are skipped; a
/// reply to `request_id` with a non-null `error` fails with its `code`
/// (default -32000) and `message` (default "Unknown error"); any other
/// reply to it is the answer.
pub fn reply_action(
    line_blank: bool,
    reply_id: Option<u64>,
    request_id: u64,
    error: Option<(Option<i64>, Option<String>)>,
) -> (r: ReplyAction)
    ensures
        (line_blank || reply_id != Some(request_id)) ==> r == ReplyAction::Skip,
        !line_blank && reply_id == Some(request_id) ==> match error {
            Some((code, message)) => r matches ReplyAction::Fail { code: c, message: m } && c == (
            match code {
                Some(v) => v,
                None => -32000i64,
            }) && m@ == (match message {
                Some(s) => s@,
                None => "Unknown error"@,
            }),
            None => r == ReplyAction::Done,
        },
{
    if line_blank {
        return ReplyAction::Skip;
    }
    match reply_id {
        Some(id) => {
            if id != request_id {
                return ReplyAction::Skip;
            }
        },
        None => {
            return ReplyAction::Skip;
        },
    }
    match error {
        Some((code, message)) => {
            let c = match code {
                Some(v) => v,
                None => -32000,
            };
            let m = match message {
                Some(s) => s,
                None => "Unknown error".to_string(),
            };
            ReplyAction::Fail { code: c, message: m }
        },
        None => ReplyAction::Done,
    }
}

} // verus!
