//! The daemon's JSON-RPC 2.0 decisions: which request lines are answered
//! with which error and which are served silently, which methods exist,
//! and what each method takes from its parameters.
use crate::text::str_eq;
use vstd::prelude::*;

verus! {

/// What the server does with one request line.
#[derive(Debug, Clone, PartialEq, Eq)]
pub enum RequestOutcome {
    /// Answer with this error; the reply carries the request's id, or
    /// `null` when it has none.
    Refuse { code: i64, message: String },
    /// Neither run nor answer (a malformed notification).
    Silent,
    /// Run the method; a reply follows only when the request has an id.
    Run(String),
}

/// The outcome as values.
pub enum OutcomeView {
    Refuse { code: int, message: Seq<char> },
    Silent,
    Run(Seq<char>),
}

pub open spec fn outcome_view(o: RequestOutcome) -> OutcomeView {
    match o {
        RequestOutcome::Refuse { code, message } => OutcomeView::Refuse { code: code as int, message: message@ },
        RequestOutcome::Silent => OutcomeView::Silent,
        RequestOutcome::Run(m) => OutcomeView::Run(m@),
    }
}

/// JSON-RPC error codes.
pub const PARSE_ERROR: i64 = -32700;
pub const INVALID_REQUEST: i64 = -32600;
pub const METHOD_NOT_FOUND: i64 = -32601;
pub const INVALID_PARAMS: i64 = -32602;
pub const SERVER_ERROR: i64 = -32000;

/// The outcome of a request line, from what it holds: whether it is JSON
/// at all, whether that is an object, whether it has an `id` member, and
/// its `jsonrpc` and `method` members when they are strings.
pub open spec fn request_outcome(
    parsed: bool,
    is_object: bool,
    has_id: bool,
    jsonrpc: Option<Seq<char>>,
    method: Option<Seq<char>>,
) -> OutcomeView {
    if !parsed {
        OutcomeView::Refuse { code: PARSE_ERROR as int, message: "Parse error"@ }
    } else if !is_object {
        OutcomeView::Refuse { code: INVALID_REQUEST as int, message: "Invalid Request"@ }
    } else if jsonrpc != Some("2.0"@) {
        if !has_id {
            OutcomeView::Silent
        } else {
            OutcomeView::Refuse {
                code: INVALID_REQUEST as int,
                message: "Invalid Request: 'jsonrpc' must be '2.0'"@,
            }
        }
    } else {
        match method {
            None => if !has_id {
                OutcomeView::Silent
            } else {
                OutcomeView::Refuse { code: INVALID_REQUEST as int, message: "Invalid Request: missing method"@ }
            },
            Some(m) => OutcomeView::Run(m),
        }
    }
}

/// Decides what to do with a request line.
pub fn check_request(parsed: bool, is_object: bool, has_id: bool, jsonrpc: Option<&str>, method: Option<&str>) -> (r:
    RequestOutcome)
    ensures
        outcome_view(r) == request_outcome(
            parsed,
            is_object,
            has_id,
            crate::measures::opt_view(jsonrpc),
            crate::measures::opt_view(method),
        ),
{
    if !parsed {
        return RequestOutcome::Refuse { code: PARSE_ERROR, message: "Parse error".to_string() };
    }
    if !is_object {
        return RequestOutcome::Refuse { code: INVALID_REQUEST, message: "Invalid Request".to_string() };
    }
    let version_ok = match jsonrpc {
        Some(v) => str_eq(v, "2.0"),
        None => false,
    };
    if !version_ok {
        if !has_id {
            return RequestOutcome::Silent;
        }
        return RequestOutcome::Refuse {
            code: INVALID_REQUEST,
            message: "Invalid Request: 'jsonrpc' must be '2.0'".to_string(),
        };
    }
    match method {
        None => if !has_id {
            RequestOutcome::Silent
        } else {
            RequestOutcome::Refuse { code: INVALID_REQUEST, message: "Invalid Request: missing method".to_string() }
        },
        Some(m) => RequestOutcome::Run(m.to_string()),
    }
}

/// The methods the daemon serves.
#[derive(Debug, Clone, Copy, PartialEq, Eq)]
pub enum RpcMethod {
    Ping,
    GetState,
    ListSkins,
    LoadSkin,
    UnloadSkin,
    RefreshSkin,
    RefreshAll,
    SetVariable,
    SetPosition,
    SetOpacity,
    ImportPackage,
}

pub open spec fn method_named(name: Seq<char>) -> Option<RpcMethod> {
    if name == "pluvia.ping"@ {
        Some(RpcMethod::Ping)
    } else if name == "pluvia.getState"@ {
        Some(RpcMethod::GetState)
    } else if name == "pluvia.listSkins"@ {
        Some(RpcMethod::ListSkins)
    } else if name == "pluvia.loadSkin"@ {
        Some(RpcMethod::LoadSkin)
    } else if name == "pluvia.unloadSkin"@ {
        Some(RpcMethod::UnloadSkin)
    } else if name == "pluvia.refreshSkin"@ {
        Some(RpcMethod::RefreshSkin)
    } else if name == "pluvia.refreshAll"@ {
        Some(RpcMethod::RefreshAll)
    } else if name == "pluvia.setVariable"@ {
        Some(RpcMethod::SetVariable)
    } else if name == "pluvia.setPosition"@ {
        Some(RpcMethod::SetPosition)
    } else if name == "pluvia.setOpacity"@ {
        Some(RpcMethod::SetOpacity)
    } else if name == "pluvia.importPackage"@ {
        Some(RpcMethod::ImportPackage)
    } else {
        None
    }
}

/// The method a name calls (names are case-sensitive).
pub fn rpc_method(name: &str) -> (r: Option<RpcMethod>)
    ensures
        r == method_named(name@),
{
    if str_eq(name, "pluvia.ping") {
        Some(RpcMethod::Ping)
    } else if str_eq(name, "pluvia.getState") {
        Some(RpcMethod::GetState)
    } else if str_eq(name, "pluvia.listSkins") {
        Some(RpcMethod::ListSkins)
    } else if str_eq(name, "pluvia.loadSkin") {
        Some(RpcMethod::LoadSkin)
    } else if str_eq(name, "pluvia.unloadSkin") {
        Some(RpcMethod::UnloadSkin)
    } else if str_eq(name, "pluvia.refreshSkin") {
        Some(RpcMethod::RefreshSkin)
    } else if str_eq(name, "pluvia.refreshAll") {
        Some(RpcMethod::RefreshAll)
    } else if str_eq(name, "pluvia.setVariable") {
        Some(RpcMethod::SetVariable)
    } else if str_eq(name, "pluvia.setPosition") {
        Some(RpcMethod::SetPosition)
    } else if str_eq(name, "pluvia.setOpacity") {
        Some(RpcMethod::SetOpacity)
    } else if str_eq(name, "pluvia.importPackage") {
        Some(RpcMethod::ImportPackage)
    } else {
        None
    }
}

/// `Method '<name>' not found`.
pub fn method_not_found_message(name: &str) -> (r: String)
    ensures
        r@ == "Method '"@ + name@ + "' not found"@,
{
    crate::bangs::concat3("Method '", name, "' not found")
}

/// `Parameter '<name>' is required`.
pub open spec fn required_message(name: Seq<char>) -> Seq<char> {
    "Parameter '"@ + name + "' is required"@
}

/// A string parameter: the member of that name when it is a string; for
/// the methods that take one bare value, the parameters themselves when
/// they are a string; else the error that it is required.
pub open spec fn string_param_of(member: Option<Seq<char>>, whole: Option<Seq<char>>, bare_allowed: bool, name: Seq<char>) -> Result<
    Seq<char>,
    Seq<char>,
> {
    match member {
        Some(v) => Ok(v),
        None => match whole {
            Some(w) => if bare_allowed {
                Ok(w)
            } else {
                Err(required_message(name))
            },
            None => Err(required_message(name)),
        },
    }
}

/// Reads a string parameter; the error is the message of an
/// invalid-parameters reply.
pub fn string_param(member: Option<&str>, whole: Option<&str>, bare_allowed: bool, name: &str) -> (r: Result<String, String>)
    ensures
        match (r, string_param_of(crate::measures::opt_view(member), crate::measures::opt_view(whole), bare_allowed, name@)) {
            (Ok(s), Ok(t)) => s@ == t,
            (Err(s), Err(t)) => s@ == t,
            _ => false,
        },
{
    match member {
        Some(v) => Ok(v.to_string()),
        None => match whole {
            Some(w) => if bare_allowed {
                Ok(w.to_string())
            } else {
                Err(crate::bangs::concat3("Parameter '", name, "' is required"))
            },
            None => Err(crate::bangs::concat3("Parameter '", name, "' is required")),
        },
    }
}

/// A coordinate parameter: the member as an integer, cut to 32 bits as
/// `as i32` does; else the error that it is required.
pub fn coordinate_param(member: Option<i64>, name: &str) -> (r: Result<i32, String>)
    ensures
        match member {
            Some(v) => r == Ok::<i32, String>(v as i32),
            None => r matches Err(m) && m@ == required_message(name@),
        },
{
    match member {
        Some(v) => Ok(v as i32),
        None => Err(crate::bangs::concat3("Parameter '", name, "' is required")),
    }
}

/// Where an imported package goes: `dest_root` as given, else
/// `.local/share/pluvia/skins` under the home directory, else `skins`.
pub open spec fn import_destination(dest_root: Option<Seq<char>>, home: Option<Seq<char>>) -> Seq<char> {
    match dest_root {
        Some(d) => d,
        None => match home {
            Some(h) => crate::client::join_path(h, ".local/share/pluvia/skins"@),
            None => "skins"@,
        },
    }
}

pub fn import_destination_for(dest_root: Option<&str>, home: Option<&str>) -> (r: String)
    ensures
        r@ == import_destination(crate::measures::opt_view(dest_root), crate::measures::opt_view(home)),
{
    match dest_root {
        Some(d) => d.to_string(),
        None => match home {
            Some(h) => crate::client::join(h, ".local/share/pluvia/skins"),
            None => "skins".to_string(),
        },
    }
}

/// A notification (a well-formed object without an `id`) is never
/// answered with an error: it is run or dropped; only lines that are not
/// JSON objects at all are refused without an id.
pub proof fn law_notifications_get_no_error_reply(
    parsed: bool,
    is_object: bool,
    jsonrpc: Option<Seq<char>>,
    method: Option<Seq<char>>,
)
    ensures
        parsed && is_object ==> !(request_outcome(parsed, is_object, false, jsonrpc, method) is Refuse),
        request_outcome(parsed, is_object, false, jsonrpc, method) is Refuse ==> !parsed || !is_object,
{
}

} // verus!
