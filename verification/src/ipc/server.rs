//! Python REST servers spawned or attached by the shell: their spec and
//! status records, and what a health probe answers.

use super::IpcError;
use crate::json::Json;
use crate::proxy::{proxy_message, ProxyError};
use crate::text::{decimal, u64_text};
use std::collections::HashMap;
use vstd::prelude::*;

verus! {

/// How to run a server.
#[derive(Debug, Clone)]
pub struct ServerSpec {
    pub id: String,
    pub host: String,
    pub port: u16,
    pub environment: String,
    pub env_file: Option<String>,
    pub env_vars: HashMap<String, String>,
    pub extra_args: Vec<String>,
    pub working_directory: Option<String>,
}

/// The state of a server.
#[derive(Debug, Clone)]
pub struct ServerStatus {
    pub id: String,
    pub running: bool,
    pub pid: Option<u32>,
    pub url: Option<String>,
    pub error: Option<String>,
}

/// What a health probe of the attached server answers, from the outcome
/// of `GET /`: the body when it succeeded; `{"status": "ok",
/// "http_status": <status>}` when the server answered with an error
/// status (it is up); an internal error naming the failure otherwise.
pub fn health_reply(result: Result<Json, ProxyError>) -> (r: Result<Json, IpcError>)
    ensures
        match result {
            Ok(v) => r == Ok::<Json, IpcError>(v),
            Err(ProxyError::Http { status, body }) => if status > 0 {
                r matches Ok(Json::Object(es)) && es@.len() == 2 && es@[0].0@ == "status"@
                    && (es@[0].1 matches Json::Str(s) && s@ == "ok"@) && es@[1].0@ == "http_status"@
                    && (es@[1].1 matches Json::Number(t) && t@ == decimal(status as nat))
            } else {
                r matches Err(IpcError::Internal(m)) && m@ == proxy_message(ProxyError::Http { status, body })
            },
            Err(e) => r matches Err(IpcError::Internal(m)) && m@ == proxy_message(e),
        },
{
    match result {
        Ok(v) => Ok(v),
        Err(e) => {
            let status: u16 = match &e {
                ProxyError::Http { status, .. } => *status,
                _ => 0,
            };
            if status > 0 {
                let mut es: Vec<(String, Json)> = Vec::new();
                es.push(("status".to_owned(), Json::Str("ok".to_owned())));
                es.push(("http_status".to_owned(), Json::Number(u64_text(status as u64))));
                Ok(Json::Object(es))
            } else {
                Err(IpcError::Internal(e.message()))
            }
        },
    }
}

} // verus!
