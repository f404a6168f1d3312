//! What the download pass decides: when to ask the network, when to ask again, and
//! what to keep.

use vstd::prelude::*;

use crate::dict::Duplicate;
use crate::error::{VendorError, VendorErrorModel, VendorWarning};
use crate::tarball::{tarball_agrees, verify_and_inspect, Verified};

verus! {

/// A response larger than this is refused.
pub const MAX_TARBALL: u64 = 268435456;

/// One package to fetch.
#[derive(Debug, PartialEq, Eq)]
pub struct Request {
    pub key: String,
    /// The package name alone: a `bin` that is a mere path names the command after
    /// the package, and `key` carries a version too.
    pub name: String,
    pub url: String,
    pub integrity: String,
}

/// The mathematical value of a [`Request`].
pub struct RequestModel {
    pub key: Seq<char>,
    pub name: Seq<char>,
    pub url: Seq<char>,
    pub integrity: Seq<char>,
}

impl DeepView for Request {
    type V = RequestModel;

    open spec fn deep_view(&self) -> RequestModel {
        RequestModel {
            key: self.key@,
            name: self.name@,
            url: self.url@,
            integrity: self.integrity@,
        }
    }
}

impl Duplicate for Request {
    fn duplicate(&self) -> (r: Self) {
        Request {
            key: self.key.clone(),
            name: self.name.clone(),
            url: self.url.clone(),
            integrity: self.integrity.clone(),
        }
    }
}

/// How many packages came from where.
#[derive(Debug, Clone, Copy, PartialEq, Eq)]
pub struct Stats {
    pub downloaded: usize,
    pub cached: usize,
}

/// What fetching one package comes to.
pub type Outcome = Result<(Verified, Vec<VendorWarning>), VendorError>;

/// A status worth asking again for: a request timeout, too many requests, or a
/// server error. Any other is the registry's final answer.
pub open spec fn is_transient(status: u16) -> bool {
    status == 408 || status == 429 || 500 <= status < 600
}

/// Whether a status is worth retrying.
pub fn retryable(status: u16) -> (r: bool)
    ensures
        r == is_transient(status),
{
    status == 408 || status == 429 || (500 <= status && status < 600)
}

/// How long to wait before the next request, in milliseconds, after this many have
/// been repeated already; none where it was the last.
pub open spec fn delay_after(attempt: int) -> Option<u64> {
    if attempt == 0 {
        Some(250)
    } else if attempt == 1 {
        Some(500)
    } else if attempt == 2 {
        Some(1000)
    } else {
        None
    }
}

/// What one request came back with.
#[derive(Debug, PartialEq, Eq)]
pub enum Response {
    /// The whole body.
    Body(Vec<u8>),
    /// A status other than success.
    Status(u16),
    /// No answer, or one that broke off: the client's message.
    Broken(String),
}

/// What to do about it.
#[derive(Debug, PartialEq)]
pub enum Action {
    /// Take these bytes.
    Take(Vec<u8>),
    /// Wait this long and ask again.
    Wait { millis: u64 },
    /// Give up.
    Fail(VendorError),
}

/// The error that a response without a body stands for.
pub open spec fn response_error(req: RequestModel, response: Response) -> VendorErrorModel {
    match response {
        Response::Status(status) => VendorErrorModel::HttpStatus {
            key: req.key,
            url: req.url,
            status,
        },
        Response::Broken(source) => VendorErrorModel::Transport {
            key: req.key,
            url: req.url,
            source: source@,
        },
        Response::Body(_) => arbitrary(),
    }
}

/// Whether another request can help.
pub open spec fn may_repeat(response: Response) -> bool {
    match response {
        Response::Status(status) => is_transient(status),
        Response::Broken(_) => true,
        Response::Body(_) => false,
    }
}

/// Decides what to do after a response, when `attempt` requests have been repeated
/// already.
pub fn download_step(req: &Request, attempt: usize, response: Response) -> (r: Action)
    ensures
        match response {
            Response::Body(bytes) => r == Action::Take(bytes),
            _ => match r {
                Action::Take(_) => false,
                Action::Wait { millis } => may_repeat(response) && delay_after(attempt as int)
                    == Some(millis),
                Action::Fail(e) => (!may_repeat(response) || delay_after(attempt as int) is None)
                    && e.deep_view() == response_error(req.deep_view(), response),
            },
        },
{
    let (error, again) = match response {
        Response::Body(bytes) => {
            return Action::Take(bytes);
        },
        Response::Status(status) => (
            VendorError::HttpStatus { key: req.key.clone(), url: req.url.clone(), status },
            retryable(status),
        ),
        Response::Broken(source) => (
            VendorError::Transport { key: req.key.clone(), url: req.url.clone(), source },
            true,
        ),
    };
    if !again {
        return Action::Fail(error);
    }
    if attempt == 0 {
        Action::Wait { millis: 250 }
    } else if attempt == 1 {
        Action::Wait { millis: 500 }
    } else if attempt == 2 {
        Action::Wait { millis: 1000 }
    } else {
        Action::Fail(error)
    }
}

/// Where the bytes of a package come from.
#[derive(Debug, PartialEq)]
pub enum Start {
    UseCache,
    Download,
    Fail(VendorError),
}

/// Decides where the bytes of a package come from.
pub fn start(req: &Request, cached: bool, no_network: bool) -> (r: Start)
    ensures
        match r {
            Start::UseCache => cached,
            Start::Download => !cached && !no_network,
            Start::Fail(e) => !cached && no_network && e.deep_view()
                == (VendorErrorModel::NetworkDisabled { key: req.key@, url: req.url@ }),
        },
{
    if cached {
        Start::UseCache
    } else if no_network {
        Start::Fail(VendorError::NetworkDisabled { key: req.key.clone(), url: req.url.clone() })
    } else {
        Start::Download
    }
}

/// What fetching one package comes to, and whether its bytes belong in the cache:
/// only bytes that were downloaded and verified do.
pub fn settle(req: &Request, bytes: &[u8], downloaded: bool) -> (r: (Outcome, bool))
    ensures
        tarball_agrees(req.key@, req.name@, req.url@, bytes@, req.integrity@, r.0),
        r.1 == (downloaded && r.0 is Ok),
{
    let outcome = verify_and_inspect(
        req.key.as_str(),
        req.name.as_str(),
        req.url.as_str(),
        bytes,
        req.integrity.as_str(),
    );
    let store = match &outcome {
        Ok(_) => downloaded,
        Err(_) => false,
    };
    (outcome, store)
}

/// How many downloads run at once: at least one, at most 64.
pub fn clamp_jobs(jobs: usize) -> (r: usize)
    ensures
        1 <= r <= 64,
        1 <= jobs <= 64 ==> r == jobs,
        jobs == 0 ==> r == 1,
        jobs > 64 ==> r == 64,
{
    if jobs < 1 {
        1
    } else if jobs > 64 {
        64
    } else {
        jobs
    }
}

/// A package is asked for at most four times: after three repeated requests there
/// is no further delay to wait for, whatever came back.
pub proof fn requests_end(attempt: int)
    requires
        attempt >= 3,
    ensures
        delay_after(attempt) is None,
{
}

/// Whether a status is worth asking again for goes by its class: a failure of the server
/// always is, and of the failures of the client only a timeout and too many requests.
/// What is no failure never is.
pub proof fn a_status_goes_by_its_class(status: u16)
    ensures
        status / 100 == 5 ==> is_transient(status),
        status / 100 == 4 ==> (is_transient(status) <==> status % 100 == 8 || status % 100 == 29),
        status / 100 != 4 && status / 100 != 5 ==> !is_transient(status),
{
}

/// The waits between requests start at a quarter of a second and double, and none follows
/// one that was not waited for.
pub proof fn waits_double(attempt: int)
    requires
        attempt >= 0,
    ensures
        delay_after(0) == Some(250u64),
        delay_after(attempt + 1) is Some ==> delay_after(attempt) is Some && delay_after(
            attempt + 1,
        )->Some_0 == 2 * delay_after(attempt)->Some_0,
        delay_after(attempt) is Some <==> attempt < 3,
{
}

/// A response that is given up on is told of with the package and its address, and with
/// what came back: the status, or the client's message.
pub proof fn a_failure_names_its_request(req: RequestModel, response: Response)
    requires
        response !is Body,
    ensures
        match response_error(req, response) {
            VendorErrorModel::HttpStatus { key, url, status } => key == req.key && url == req.url
                && response == Response::Status(status),
            VendorErrorModel::Transport { key, url, source } => key == req.key && url == req.url
                && response is Broken && response->Broken_0@ == source,
            _ => false,
        },
        response is Broken ==> may_repeat(response),
        response is Status ==> may_repeat(response) == is_transient(response->Status_0),
{
}

} // verus!
