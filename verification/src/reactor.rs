use vstd::prelude::*;

verus! {

use crate::http::FileOutcome;
use crate::http::Response;
use crate::http::file_path_for;
use crate::http::get_response;
use crate::http::make_error_response;
use crate::http::parse_request;
use crate::http::spec_error_response;
use crate::http::spec_file_path;
use crate::http::spec_get_response;
use crate::http::spec_parse_request;
use crate::http::spec_response_bytes;
use vstd::string::StringExecFns;

/// A correlation token: the record attached to one in-flight kernel
/// operation, owning every resource the kernel borrows for its duration.
#[derive(Debug)]
pub enum Event {
    /// An accept on the listener is outstanding; it needs no resources.
    Accept,
    /// A read into `buf` is outstanding on the connection's socket.
    ReadRequest { client_socket: i32, buf: Vec<u8> },
    /// A write of `buf` is outstanding on the connection's socket.
    WriteResponse { client_socket: i32, buf: Vec<u8> },
}

/// The socket descriptor a token owns, if it owns one.
pub open spec fn spec_token_fd(t: Event) -> Option<int> {
    match t {
        Event::Accept => None,
        Event::ReadRequest { client_socket, .. } => Some(client_socket as int),
        Event::WriteResponse { client_socket, .. } => Some(client_socket as int),
    }
}

/// No two live tokens own the same socket descriptor.
pub open spec fn distinct_fds(s: Seq<Option<Event>>) -> bool {
    forall|i: int, j: int|
        0 <= i < s.len() && 0 <= j < s.len() && i != j && #[trigger] s[i] is Some
            && #[trigger] s[j] is Some && spec_token_fd(s[i]->0) is Some ==> spec_token_fd(
            s[i]->0,
        ) != spec_token_fd(s[j]->0)
}

/// Some live token owns the descriptor `fd`.
pub open spec fn spec_owns_fd(s: Seq<Option<Event>>, fd: int) -> bool {
    exists|i: int|
        0 <= i < s.len() && #[trigger] s[i] is Some && spec_token_fd(s[i]->0) == Some(fd)
}

/// An error of the reactor itself.
#[derive(Clone, Copy, Debug, PartialEq, Eq, Structural)]
pub enum ReactorError {
    /// Every submission slot holds a live token: the configured depth is
    /// exhausted.
    QueueFull,
    /// A completion named a slot with no live token.
    UnknownToken,
}

/// The table of correlation tokens for every in-flight operation, indexed by
/// the small integer handle that crosses the kernel boundary in place of a
/// raw address. At most one live token owns a given socket at any time, and
/// the number of live tokens never exceeds the configured depth.
pub struct Reactor {
    /// The configured submission-queue depth: the fixed number of slots.
    pub depth: usize,
    /// The capacity of the buffer allocated for each read.
    pub read_size: usize,
    /// One slot per possible in-flight operation; a live token or free.
    pub slots: Vec<Option<Event>>,
}

impl Reactor {
    /// The invariant of the token table: as many slots as the depth, and no
    /// socket owned by two live tokens.
    pub open spec fn wf(&self) -> bool {
        &&& self.slots@.len() == self.depth
        &&& self.depth >= 1
        &&& self.read_size >= 1
        &&& distinct_fds(self.slots@)
    }

    /// Slot `h` holds a live token.
    pub open spec fn live(&self, h: int) -> bool {
        0 <= h < self.slots@.len() && self.slots@[h] is Some
    }

    /// The token in slot `h`.
    pub open spec fn token(&self, h: int) -> Event
        recommends
            self.live(h),
    {
        self.slots@[h]->0
    }

    /// Creates the table for a ring of the given depth, with every slot free.
    pub fn new(depth: usize, read_size: usize) -> (r: Reactor)
        requires
            depth >= 1,
            read_size >= 1,
        ensures
            r.wf(),
            r.depth == depth,
            r.read_size == read_size,
            forall|i: int| 0 <= i < depth ==> r.slots@[i] is None,
    {
        let mut slots: Vec<Option<Event>> = Vec::new();
        let mut i: usize = 0;
        while i < depth
            invariant
                i <= depth,
                slots@.len() == i,
                forall|j: int| 0 <= j < i ==> slots@[j] is None,
            decreases depth - i,
        {
            slots.push(None);
            i += 1;
        }
        Reactor { depth, read_size, slots }
    }

    /// Whether some live token owns the descriptor `fd`.
    pub fn fd_is_owned(&self, fd: i32) -> (b: bool)
        ensures
            b == spec_owns_fd(self.slots@, fd as int),
    {
        let n = self.slots.len();
        let mut i: usize = 0;
        while i < n
            invariant
                i <= n,
                n == self.slots@.len(),
                forall|j: int|
                    0 <= j < i ==> !(#[trigger] self.slots@[j] is Some && spec_token_fd(
                        self.slots@[j]->0,
                    ) == Some(fd as int)),
            decreases n - i,
        {
            let owned = match &self.slots[i] {
                None => false,
                Some(Event::Accept) => false,
                Some(Event::ReadRequest { client_socket, .. }) => *client_socket == fd,
                Some(Event::WriteResponse { client_socket, .. }) => *client_socket == fd,
            };
            if owned {
                return true;
            }
            i += 1;
        }
        false
    }

    /// Installs a token in the first free slot and hands back its handle;
    /// fails when every slot is taken, that is, when as many operations are
    /// in flight as the configured depth.
    fn install_token(&mut self, token: Event) -> (r: Result<usize, ReactorError>)
        requires
            old(self).wf(),
            spec_token_fd(token) matches Some(fd) ==> !spec_owns_fd(old(self).slots@, fd),
        ensures
            final(self).wf(),
            final(self).depth == old(self).depth,
            final(self).read_size == old(self).read_size,
            match r {
                Ok(h) => {
                    &&& h < old(self).slots@.len()
                    &&& old(self).slots@[h as int] is None
                    &&& final(self).slots@ == old(self).slots@.update(h as int, Some(token))
                },
                Err(e) => {
                    &&& e == ReactorError::QueueFull
                    &&& *final(self) == *old(self)
                    &&& forall|i: int| 0 <= i < old(self).slots@.len() ==> old(self).slots@[i] is Some
                },
            },
    {
        let n = self.slots.len();
        let mut h: usize = 0;
        while h < n
            invariant
                old(self).wf(),
                spec_token_fd(token) matches Some(fd) ==> !spec_owns_fd(old(self).slots@, fd),
                h <= n,
                n == self.slots@.len(),
                *self == *old(self),
                forall|i: int| 0 <= i < h ==> self.slots@[i] is Some,
            decreases n - h,
        {
            if self.slots[h].is_none() {
                self.slots[h] = Some(token);
                proof {
                    lemma_install_keeps_distinct(old(self).slots@, h as int, token);
                }
                return Ok(h);
            }
            h += 1;
        }
        Err(ReactorError::QueueFull)
    }

    /// Arms a new accept operation: installs an `Accept` token and hands
    /// back the handle to tag the kernel submission with. Fails only when
    /// the configured depth is exhausted, which is fatal to the server.
    pub fn add_accept_request(&mut self) -> (r: Result<usize, ReactorError>)
        requires
            old(self).wf(),
        ensures
            final(self).wf(),
            final(self).depth == old(self).depth,
            final(self).read_size == old(self).read_size,
            match r {
                Ok(h) => {
                    &&& h < old(self).slots@.len()
                    &&& old(self).slots@[h as int] is None
                    &&& final(self).slots@ == old(self).slots@.update(
                        h as int,
                        Some(Event::Accept),
                    )
                },
                Err(e) => {
                    &&& e == ReactorError::QueueFull
                    &&& *final(self) == *old(self)
                    &&& forall|i: int| 0 <= i < old(self).slots@.len() ==> old(self).slots@[i] is Some
                },
            },
    {
        self.install_token(Event::Accept)
    }

    /// Arms a read on an accepted connection: installs a token owning the
    /// socket and a fresh zeroed buffer of the configured read capacity.
    /// The socket must not be owned by any live token; the kernel guarantees
    /// this for a descriptor a completed accept just returned, and a
    /// reclaimed descriptor is free again.
    pub fn add_read_request(&mut self, client_socket: i32) -> (r: Result<usize, ReactorError>)
        requires
            old(self).wf(),
            !spec_owns_fd(old(self).slots@, client_socket as int),
        ensures
            final(self).wf(),
            final(self).depth == old(self).depth,
            final(self).read_size == old(self).read_size,
            match r {
                Ok(h) => {
                    &&& h < old(self).slots@.len()
                    &&& old(self).slots@[h as int] is None
                    &&& final(self).slots@.len() == old(self).slots@.len()
                    &&& final(self).slots@[h as int] matches Some(
                        Event::ReadRequest { client_socket: cs, buf },
                    ) && cs == client_socket && buf@ == Seq::new(
                        old(self).read_size as nat,
                        |i: int| 0u8,
                    )
                    &&& forall|i: int|
                        0 <= i < old(self).slots@.len() && i != h ==> final(self).slots@[i] == old(
                            self,
                        ).slots@[i]
                },
                Err(e) => {
                    &&& e == ReactorError::QueueFull
                    &&& *final(self) == *old(self)
                    &&& forall|i: int| 0 <= i < old(self).slots@.len() ==> old(self).slots@[i] is Some
                },
            },
    {
        let buf = zero_buffer(self.read_size);
        self.install_token(Event::ReadRequest { client_socket, buf })
    }

    /// Arms a write of the serialized response on the connection's socket:
    /// installs a token owning the socket and the exact bytes to send. The
    /// socket must not be owned by any live token; the read token it came
    /// from has been reclaimed by the time the response is built.
    pub fn add_write_request(&mut self, client_socket: i32, response: Response, body: Vec<u8>) -> (r:
        Result<usize, ReactorError>)
        requires
            old(self).wf(),
            !spec_owns_fd(old(self).slots@, client_socket as int),
        ensures
            final(self).wf(),
            final(self).depth == old(self).depth,
            final(self).read_size == old(self).read_size,
            match r {
                Ok(h) => {
                    &&& h < old(self).slots@.len()
                    &&& old(self).slots@[h as int] is None
                    &&& final(self).slots@.len() == old(self).slots@.len()
                    &&& final(self).slots@[h as int] matches Some(
                        Event::WriteResponse { client_socket: cs, buf },
                    ) && cs == client_socket && buf@ == spec_response_bytes(response@, body@)
                    &&& forall|i: int|
                        0 <= i < old(self).slots@.len() && i != h ==> final(self).slots@[i] == old(
                            self,
                        ).slots@[i]
                },
                Err(e) => {
                    &&& e == ReactorError::QueueFull
                    &&& *final(self) == *old(self)
                    &&& forall|i: int| 0 <= i < old(self).slots@.len() ==> old(self).slots@[i] is Some
                },
            },
    {
        let buf = crate::http::serialize_response(&response, &body);
        self.install_token(Event::WriteResponse { client_socket, buf })
    }

    /// Reclaims the token for a completed operation: the single point where
    /// ownership of a socket and buffer returns from the kernel. The slot
    /// becomes free; a handle with no live token is refused.
    pub fn reclaim(&mut self, handle: usize) -> (r: Result<Event, ReactorError>)
        requires
            old(self).wf(),
        ensures
            final(self).wf(),
            final(self).depth == old(self).depth,
            final(self).read_size == old(self).read_size,
            match r {
                Ok(token) => {
                    &&& old(self).live(handle as int)
                    &&& token == old(self).token(handle as int)
                    &&& final(self).slots@ == old(self).slots@.update(handle as int, None)
                },
                Err(e) => {
                    &&& e == ReactorError::UnknownToken
                    &&& !old(self).live(handle as int)
                    &&& final(self).slots@ == old(self).slots@
                },
            },
    {
        if handle >= self.slots.len() {
            return Err(ReactorError::UnknownToken);
        }
        let taken = self.slots[handle].take();
        match taken {
            None => {
                proof {
                    assert(self.slots@ =~= old(self).slots@);
                }
                Err(ReactorError::UnknownToken)
            },
            Some(token) => {
                proof {
                    lemma_free_keeps_distinct(old(self).slots@, handle as int);
                }
                Ok(token)
            },
        }
    }
}

/// A buffer of `len` zeroed bytes, ready for a read.
fn zero_buffer(len: usize) -> (v: Vec<u8>)
    ensures
        v@ == Seq::new(len as nat, |i: int| 0u8),
{
    let mut v: Vec<u8> = Vec::new();
    let mut i: usize = 0;
    while i < len
        invariant
            i <= len,
            v@.len() == i,
            forall|j: int| 0 <= j < i ==> v@[j] == 0u8,
        decreases len - i,
    {
        v.push(0u8);
        i += 1;
    }
    proof {
        assert(v@ =~= Seq::new(len as nat, |i: int| 0u8));
    }
    v
}

/// Installing a token whose socket no live token owns keeps sockets
/// uniquely owned.
proof fn lemma_install_keeps_distinct(s: Seq<Option<Event>>, h: int, t: Event)
    requires
        distinct_fds(s),
        0 <= h < s.len(),
        s[h] is None,
        spec_token_fd(t) matches Some(fd) ==> !spec_owns_fd(s, fd),
    ensures
        distinct_fds(s.update(h, Some(t))),
{
    let s2 = s.update(h, Some(t));
    assert forall|i: int, j: int|
        0 <= i < s2.len() && 0 <= j < s2.len() && i != j && #[trigger] s2[i] is Some
            && #[trigger] s2[j] is Some && spec_token_fd(s2[i]->0) is Some implies spec_token_fd(
        s2[i]->0,
    ) != spec_token_fd(s2[j]->0) by {
        if i == h {
            if spec_token_fd(s2[i]->0) == spec_token_fd(s2[j]->0) {
                assert(s[j] is Some && spec_token_fd(s[j]->0) == spec_token_fd(t));
                assert(spec_owns_fd(s, spec_token_fd(t)->0));
            }
        } else if j == h {
            if spec_token_fd(s2[i]->0) == spec_token_fd(s2[j]->0) {
                assert(s[i] is Some && spec_token_fd(s[i]->0) == spec_token_fd(t));
                assert(spec_owns_fd(s, spec_token_fd(t)->0));
            }
        }
    }
}

/// Freeing a slot keeps sockets uniquely owned.
proof fn lemma_free_keeps_distinct(s: Seq<Option<Event>>, h: int)
    requires
        distinct_fds(s),
        0 <= h < s.len(),
    ensures
        distinct_fds(s.update(h, None)),
{
}

/// Installing a token that does not own `fd` leaves ownership of `fd` as it
/// was.
proof fn lemma_install_keeps_other_fds(s: Seq<Option<Event>>, h: int, t: Event, fd: int)
    requires
        0 <= h < s.len(),
        s[h] is None,
        spec_token_fd(t) != Some(fd),
    ensures
        spec_owns_fd(s.update(h, Some(t)), fd) == spec_owns_fd(s, fd),
{
    let s2 = s.update(h, Some(t));
    if spec_owns_fd(s2, fd) {
        let i = choose|i: int|
            0 <= i < s2.len() && #[trigger] s2[i] is Some && spec_token_fd(s2[i]->0) == Some(fd);
        assert(i != h);
        assert(s[i] is Some && spec_token_fd(s[i]->0) == Some(fd));
    }
    if spec_owns_fd(s, fd) {
        let i = choose|i: int|
            0 <= i < s.len() && #[trigger] s[i] is Some && spec_token_fd(s[i]->0) == Some(fd);
        assert(i != h);
        assert(s2[i] is Some && spec_token_fd(s2[i]->0) == Some(fd));
    }
}

/// After the one token owning `fd` is reclaimed, no live token owns `fd`.
pub proof fn lemma_reclaimed_fd_is_free(s: Seq<Option<Event>>, h: int)
    requires
        distinct_fds(s),
        0 <= h < s.len(),
        s[h] is Some,
        spec_token_fd(s[h]->0) is Some,
    ensures
        !spec_owns_fd(s.update(h, None), spec_token_fd(s[h]->0)->0),
{
    let s2 = s.update(h, None);
    let fd = spec_token_fd(s[h]->0)->0;
    if spec_owns_fd(s2, fd) {
        let i = choose|i: int|
            0 <= i < s2.len() && #[trigger] s2[i] is Some && spec_token_fd(s2[i]->0) == Some(fd);
        assert(i != h);
        assert(s[i] is Some && s[h] is Some);
        assert(spec_token_fd(s[i]->0) != spec_token_fd(s[h]->0));
    }
}

/// Token uniqueness: in a well-formed reactor, two distinct live tokens
/// never own the same socket, whatever operations produced them.
pub proof fn lemma_token_uniqueness(r: Reactor, i: int, j: int)
    requires
        r.wf(),
        r.live(i),
        r.live(j),
        i != j,
        spec_token_fd(r.token(i)) is Some,
    ensures
        spec_token_fd(r.token(i)) != spec_token_fd(r.token(j)),
{
}

/// Why the reactor tells the event loop to close a socket.
#[derive(Clone, Copy, Debug, PartialEq, Eq, Structural)]
pub enum DropReason {
    /// The connection's read completed with no bytes.
    EmptyRequest,
    /// The bytes read were not a complete, well-formed request.
    ParseFailed,
    /// The kernel reported an error for the connection's operation.
    IoError,
    /// The response has been handed to the kernel; the connection is done.
    Finished,
}

/// What the event loop must do before it blocks again. For a submission,
/// the named token already sits in the table; the handle is what tags the
/// kernel entry, and the token's own buffer is what the kernel borrows.
#[derive(Debug)]
pub enum Action {
    /// Prepare an accept on the listener, tagged with this handle.
    SubmitAccept { handle: usize },
    /// Prepare a read on `fd` into the token's buffer, tagged with this
    /// handle.
    SubmitRead { handle: usize, fd: i32 },
    /// Prepare a write on `fd` of the token's buffer, tagged with this
    /// handle.
    SubmitWrite { handle: usize, fd: i32 },
    /// Read the file at `fs_path` and hand the outcome back through
    /// [`Reactor::submit_file_response`] together with `fd` and both paths.
    ServeFile { fd: i32, fs_path: String, request_path: String },
    /// Close this socket; no operation remains for the connection.
    CloseSocket { fd: i32, reason: DropReason },
}

/// In `next`, slot `h` was free in `prev` and now holds an `Accept` token.
pub open spec fn spec_armed_accept(
    prev: Seq<Option<Event>>,
    next: Seq<Option<Event>>,
    h: int,
) -> bool {
    &&& 0 <= h < prev.len()
    &&& prev[h] is None
    &&& next.len() == prev.len()
    &&& next[h] == Some(Event::Accept)
}

/// In `next`, slot `h` was free in `prev` and now holds a read token for
/// `fd` with a zeroed buffer of `read_size` bytes.
pub open spec fn spec_armed_read(
    prev: Seq<Option<Event>>,
    next: Seq<Option<Event>>,
    h: int,
    fd: i32,
    read_size: int,
) -> bool {
    &&& 0 <= h < prev.len()
    &&& prev[h] is None
    &&& next.len() == prev.len()
    &&& next[h] matches Some(Event::ReadRequest { client_socket, buf }) && client_socket == fd
        && buf@ == Seq::new(read_size as nat, |i: int| 0u8)
}

/// In `next`, slot `h` was free in `prev` and now holds a write token for
/// `fd` carrying exactly `bytes`.
pub open spec fn spec_armed_write(
    prev: Seq<Option<Event>>,
    next: Seq<Option<Event>>,
    h: int,
    fd: i32,
    bytes: Seq<u8>,
) -> bool {
    &&& 0 <= h < prev.len()
    &&& prev[h] is None
    &&& next.len() == prev.len()
    &&& next[h] matches Some(Event::WriteResponse { client_socket, buf }) && client_socket == fd
        && buf@ == bytes
}

/// Every slot outside `touched` is as it was.
pub open spec fn spec_frame(
    prev: Seq<Option<Event>>,
    next: Seq<Option<Event>>,
    touched: Set<int>,
) -> bool {
    &&& next.len() == prev.len()
    &&& forall|i: int| 0 <= i < prev.len() && !touched.contains(i) ==> next[i] == prev[i]
}

/// The one action is to close `fd` for `reason`; no token was armed.
pub open spec fn spec_close_only(
    prev: Seq<Option<Event>>,
    next: Seq<Option<Event>>,
    actions: Seq<Action>,
    fd: i32,
    reason: DropReason,
) -> bool {
    &&& actions.len() == 1
    &&& actions[0] == (Action::CloseSocket { fd, reason })
    &&& next == prev
}

/// The one action re-arms the accept: a fresh `Accept` token and nothing
/// else changed. This is what every accept completion produces at least.
pub open spec fn spec_rearm_only(
    prev: Seq<Option<Event>>,
    next: Seq<Option<Event>>,
    actions: Seq<Action>,
) -> bool {
    &&& actions.len() == 1
    &&& actions[0] matches Action::SubmitAccept { handle } && spec_armed_accept(
        prev,
        next,
        handle as int,
    ) && spec_frame(prev, next, set![handle as int])
}

/// An accept completion's transition: the accept is always re-armed first;
/// a usable new descriptor no live token owns is then given a read token,
/// and the two submissions are handed back in that order. A failed accept,
/// a descriptor out of range, or one still owned by a live token leaves the
/// re-armed accept as the only action.
pub open spec fn spec_accept_transition(
    prev: Seq<Option<Event>>,
    next: Seq<Option<Event>>,
    result: Result<u32, i32>,
    read_size: int,
    actions: Seq<Action>,
) -> bool {
    match result {
        Err(_) => spec_rearm_only(prev, next, actions),
        Ok(n) => if n > 0x7fff_ffff || spec_owns_fd(prev, n as int) {
            spec_rearm_only(prev, next, actions)
        } else {
            let fd = n as i32;
            &&& actions.len() == 2
            &&& actions[0] matches Action::SubmitAccept { handle: ha } && (actions[1] matches
                Action::SubmitRead { handle: hr, fd: f } && {
                &&& f == fd
                &&& ha != hr
                &&& spec_armed_accept(prev, next, ha as int)
                &&& spec_armed_read(prev, next, hr as int, fd, read_size)
                &&& spec_frame(prev, next, set![ha as int, hr as int])
            })
        },
    }
}

/// A read completion's transition. An error or an empty read drops the
/// connection. Otherwise the filled prefix of the buffer is parsed: a
/// complete request for the one served method asks the loop for the file;
/// any other method is answered with a bad-request page at once; anything
/// short of a complete request drops the connection without a response.
pub open spec fn spec_read_transition(
    prev: Seq<Option<Event>>,
    next: Seq<Option<Event>>,
    fd: i32,
    buf: Seq<u8>,
    result: Result<u32, i32>,
    actions: Seq<Action>,
) -> bool {
    match result {
        Err(_) => spec_close_only(prev, next, actions, fd, DropReason::IoError),
        Ok(n) => if n == 0 {
            spec_close_only(prev, next, actions, fd, DropReason::EmptyRequest)
        } else if n > buf.len() {
            spec_close_only(prev, next, actions, fd, DropReason::IoError)
        } else {
            match spec_parse_request(buf.take(n as int)) {
                Err(_) => spec_close_only(prev, next, actions, fd, DropReason::ParseFailed),
                Ok(None) => spec_close_only(prev, next, actions, fd, DropReason::ParseFailed),
                Ok(Some(req)) => if req.method == "GET"@ {
                    if req.path.len() == 0 {
                        spec_close_only(prev, next, actions, fd, DropReason::ParseFailed)
                    } else {
                        &&& actions.len() == 1
                        &&& actions[0] matches Action::ServeFile { fd: f, fs_path, request_path }
                            && f == fd && fs_path@ == spec_file_path(req.path) && request_path@
                            == req.path
                        &&& next == prev
                    }
                } else {
                    let page = spec_error_response(
                        "400 Bad Request"@,
                        "unimplemented HTTP method"@,
                    );
                    &&& actions.len() == 1
                    &&& actions[0] matches Action::SubmitWrite { handle, fd: f } && f == fd
                        && spec_armed_write(
                        prev,
                        next,
                        handle as int,
                        fd,
                        spec_response_bytes(page.0, page.1),
                    ) && spec_frame(prev, next, set![handle as int])
                },
            }
        },
    }
}

/// Re-arm liveness: every accept completion's transition, successful or
/// failed, submits exactly one new accept operation, and its token is
/// freshly armed — the listener never goes quiet.
pub proof fn lemma_rearm_liveness(
    prev: Seq<Option<Event>>,
    next: Seq<Option<Event>>,
    result: Result<u32, i32>,
    read_size: int,
    actions: Seq<Action>,
)
    requires
        spec_accept_transition(prev, next, result, read_size, actions),
    ensures
        exists|k: int|
            0 <= k < actions.len() && ((#[trigger] actions[k]) matches Action::SubmitAccept {
                handle,
            } && spec_armed_accept(prev, next, handle as int)),
        forall|k1: int, k2: int|
            0 <= k1 < actions.len() && 0 <= k2 < actions.len() && ((#[trigger] actions[k1]) matches
                Action::SubmitAccept { .. }) && ((#[trigger] actions[k2]) matches
                Action::SubmitAccept { .. }) ==> k1 == k2,
{
    assert(actions[0] matches Action::SubmitAccept { handle } && spec_armed_accept(
        prev,
        next,
        handle as int,
    ));
}

/// Per-connection ordering, first step: after an accept completion that
/// took a new descriptor in, the only live token owning that descriptor is
/// its read token — the connection's next observable operation is the read.
pub proof fn lemma_accept_then_read(
    prev: Seq<Option<Event>>,
    next: Seq<Option<Event>>,
    n: u32,
    read_size: int,
    actions: Seq<Action>,
)
    requires
        spec_accept_transition(prev, next, Ok(n), read_size, actions),
        n <= 0x7fff_ffff,
        !spec_owns_fd(prev, n as int),
    ensures
        forall|h: int|
            0 <= h < next.len() && #[trigger] next[h] is Some && spec_token_fd(next[h]->0) == Some(
                n as int,
            ) ==> next[h]->0 is ReadRequest,
{
    assert forall|h: int|
        0 <= h < next.len() && #[trigger] next[h] is Some && spec_token_fd(next[h]->0) == Some(
            n as int,
        ) implies next[h]->0 is ReadRequest by {
        if next[h] != prev[h] {
        } else {
            assert(prev[h] is Some && spec_token_fd(prev[h]->0) == Some(n as int));
            assert(spec_owns_fd(prev, n as int));
        }
    }
}

/// Per-connection ordering, second step: after a read completion for a
/// connection, the only live token that can own its descriptor is a write
/// token — never a second read, and never an accept.
pub proof fn lemma_read_then_write(
    prev: Seq<Option<Event>>,
    next: Seq<Option<Event>>,
    fd: i32,
    buf: Seq<u8>,
    result: Result<u32, i32>,
    actions: Seq<Action>,
)
    requires
        spec_read_transition(prev, next, fd, buf, result, actions),
        !spec_owns_fd(prev, fd as int),
    ensures
        forall|h: int|
            0 <= h < next.len() && #[trigger] next[h] is Some && spec_token_fd(next[h]->0) == Some(
                fd as int,
            ) ==> next[h]->0 is WriteResponse,
{
    assert forall|h: int|
        0 <= h < next.len() && #[trigger] next[h] is Some && spec_token_fd(next[h]->0) == Some(
            fd as int,
        ) implies next[h]->0 is WriteResponse by {
        if next[h] != prev[h] {
        } else {
            assert(prev[h] is Some && spec_token_fd(prev[h]->0) == Some(fd as int));
            assert(spec_owns_fd(prev, fd as int));
        }
    }
}

/// Per-connection ordering holds whatever the global interleaving: across
/// a transition that arms tokens only in previously free slots and only
/// for other descriptors, the in-flight token of connection `g` — if there
/// is one — is exactly the same token in the same slot afterwards.
pub proof fn lemma_other_connection_unchanged(
    prev: Seq<Option<Event>>,
    next: Seq<Option<Event>>,
    touched: Set<int>,
    g: int,
)
    requires
        spec_frame(prev, next, touched),
        forall|h: int| #[trigger] touched.contains(h) && 0 <= h < prev.len() ==> prev[h] is None,
        forall|h: int|
            #[trigger] touched.contains(h) && 0 <= h < next.len() && next[h] is Some
                ==> spec_token_fd(next[h]->0) != Some(g),
    ensures
        forall|i: int|
            0 <= i < next.len() && #[trigger] next[i] is Some && spec_token_fd(next[i]->0) == Some(
                g,
            ) ==> next[i] == prev[i],
        forall|i: int|
            0 <= i < prev.len() && #[trigger] prev[i] is Some && spec_token_fd(prev[i]->0) == Some(
                g,
            ) ==> next[i] == prev[i],
{
    assert forall|i: int|
        0 <= i < next.len() && #[trigger] next[i] is Some && spec_token_fd(next[i]->0) == Some(
            g,
        ) implies next[i] == prev[i] by {
        if touched.contains(i) {
        }
    }
    assert forall|i: int|
        0 <= i < prev.len() && #[trigger] prev[i] is Some && spec_token_fd(prev[i]->0) == Some(
            g,
        ) implies next[i] == prev[i] by {
        if touched.contains(i) {
        }
    }
}

/// An accept completion touches only the listener's fresh token and the
/// new connection's read token: every other connection's in-flight token
/// is exactly as it was, however completions interleave.
pub proof fn lemma_accept_leaves_other_connections(
    prev: Seq<Option<Event>>,
    next: Seq<Option<Event>>,
    result: Result<u32, i32>,
    read_size: int,
    actions: Seq<Action>,
    g: int,
)
    requires
        spec_accept_transition(prev, next, result, read_size, actions),
        result matches Ok(n) ==> g != n as int,
    ensures
        forall|i: int|
            0 <= i < next.len() && #[trigger] next[i] is Some && spec_token_fd(next[i]->0) == Some(
                g,
            ) ==> next[i] == prev[i],
        forall|i: int|
            0 <= i < prev.len() && #[trigger] prev[i] is Some && spec_token_fd(prev[i]->0) == Some(
                g,
            ) ==> next[i] == prev[i],
{
    let rearm_only = match result {
        Err(_) => true,
        Ok(n) => n > 0x7fff_ffff || spec_owns_fd(prev, n as int),
    };
    if rearm_only {
        let ha = actions[0]->SubmitAccept_handle as int;
        lemma_other_connection_unchanged(prev, next, set![ha], g);
    } else {
        let ha = actions[0]->SubmitAccept_handle as int;
        let hr = actions[1]->SubmitRead_handle as int;
        lemma_other_connection_unchanged(prev, next, set![ha, hr], g);
    }
}

/// A read completion touches at most the connection's own write token:
/// every other connection's in-flight token is exactly as it was, however
/// completions interleave.
pub proof fn lemma_read_leaves_other_connections(
    prev: Seq<Option<Event>>,
    next: Seq<Option<Event>>,
    fd: i32,
    buf: Seq<u8>,
    result: Result<u32, i32>,
    actions: Seq<Action>,
    g: int,
)
    requires
        spec_read_transition(prev, next, fd, buf, result, actions),
        g != fd as int,
    ensures
        forall|i: int|
            0 <= i < next.len() && #[trigger] next[i] is Some && spec_token_fd(next[i]->0) == Some(
                g,
            ) ==> next[i] == prev[i],
        forall|i: int|
            0 <= i < prev.len() && #[trigger] prev[i] is Some && spec_token_fd(prev[i]->0) == Some(
                g,
            ) ==> next[i] == prev[i],
{
    if next == prev {
    } else {
        let hw = actions[0]->SubmitWrite_handle as int;
        lemma_other_connection_unchanged(prev, next, set![hw], g);
    }
}

impl Reactor {
    /// Dispatches one completion: reclaims the token the kernel tagged with
    /// `handle`, interprets `result` for that operation, and arms whatever
    /// comes next for the listener and the connection. The actions tell the
    /// event loop what to submit, read or close before it blocks again.
    ///
    /// A failure to arm a needed operation is the queue-depth exhaustion
    /// error, fatal to the server loop. It can arise only on an accept
    /// completion, whose re-arm and new read together need one more slot
    /// than the reclaim freed, and only with every slot left holding a live
    /// token; every other completion frees its own slot first, so its
    /// actions are owed. On the error, every token of every other
    /// connection is left exactly as it was.
    pub fn handle_completion(&mut self, handle: usize, result: Result<u32, i32>) -> (r: Result<
        Vec<Action>,
        ReactorError,
    >)
        requires
            old(self).wf(),
        ensures
            final(self).wf(),
            final(self).depth == old(self).depth,
            final(self).read_size == old(self).read_size,
            ({
                let prev = old(self).slots@.update(handle as int, None);
                let next = final(self).slots@;
                match r {
                    Err(ReactorError::UnknownToken) => {
                        &&& !old(self).live(handle as int)
                        &&& next == old(self).slots@
                    },
                    Err(ReactorError::QueueFull) => {
                        &&& old(self).live(handle as int)
                        &&& old(self).token(handle as int) is Accept
                        &&& next.len() == old(self).slots@.len()
                        &&& forall|i: int| 0 <= i < next.len() ==> next[i] is Some
                        &&& forall|i: int|
                            0 <= i < next.len() && i != handle as int && old(self).slots@[i]
                                is Some ==> next[i] == old(self).slots@[i]
                    },
                    Ok(actions) => {
                        &&& old(self).live(handle as int)
                        &&& match old(self).token(handle as int) {
                            Event::Accept => spec_accept_transition(
                                prev,
                                next,
                                result,
                                old(self).read_size as int,
                                actions@,
                            ),
                            Event::ReadRequest { client_socket, buf } => spec_read_transition(
                                prev,
                                next,
                                client_socket,
                                buf@,
                                result,
                                actions@,
                            ),
                            Event::WriteResponse { client_socket, .. } => spec_close_only(
                                prev,
                                next,
                                actions@,
                                client_socket,
                                DropReason::Finished,
                            ),
                        }
                    },
                }
            }),
    {
        let token = match self.reclaim(handle) {
            Err(e) => {
                return Err(e);
            },
            Ok(t) => t,
        };
        let ghost prev = self.slots@;
        match token {
            Event::Accept => {
                let rearm = match self.add_accept_request() {
                    Err(e) => {
                        proof {
                            // The reclaimed slot is free, so a slot was found.
                            assert(prev[handle as int] is None);
                            assert(false);
                        }
                        return Err(e);
                    },
                    Ok(h) => h,
                };
                let usable = match result {
                    Err(_) => None,
                    Ok(n) => if n > 0x7fff_ffff {
                        None
                    } else {
                        let fd = n as i32;
                        proof {
                            lemma_install_keeps_other_fds(
                                prev,
                                rearm as int,
                                Event::Accept,
                                fd as int,
                            );
                        }
                        if self.fd_is_owned(fd) {
                            None
                        } else {
                            Some(fd)
                        }
                    },
                };
                match usable {
                    None => {
                        let mut actions: Vec<Action> = Vec::new();
                        actions.push(Action::SubmitAccept { handle: rearm });
                        Ok(actions)
                    },
                    Some(fd) => {
                        let read_h = match self.add_read_request(fd) {
                            Err(e) => {
                                return Err(e);
                            },
                            Ok(h) => h,
                        };
                        let mut actions: Vec<Action> = Vec::new();
                        actions.push(Action::SubmitAccept { handle: rearm });
                        actions.push(Action::SubmitRead { handle: read_h, fd });
                        Ok(actions)
                    },
                }
            },
            Event::ReadRequest { client_socket, buf } => {
                let outcome: Option<DropReason> = match result {
                    Err(_) => Some(DropReason::IoError),
                    Ok(n) => if n == 0 {
                        Some(DropReason::EmptyRequest)
                    } else if n as usize > buf.len() {
                        Some(DropReason::IoError)
                    } else {
                        None
                    },
                };
                if let Some(reason) = outcome {
                    let mut actions: Vec<Action> = Vec::new();
                    actions.push(Action::CloseSocket { fd: client_socket, reason });
                    return Ok(actions);
                }
                let n = match result {
                    Ok(n) => n as usize,
                    Err(_) => 0,
                };
                let input = vstd::slice::slice_subrange(buf.as_slice(), 0, n);
                match parse_request(input) {
                    Err(_) | Ok(None) => {
                        let mut actions: Vec<Action> = Vec::new();
                        actions.push(
                            Action::CloseSocket {
                                fd: client_socket,
                                reason: DropReason::ParseFailed,
                            },
                        );
                        Ok(actions)
                    },
                    Ok(Some(req)) => {
                        if req.method == String::from_str("GET") {
                            if req.path.as_str().is_empty() {
                                let mut actions: Vec<Action> = Vec::new();
                                actions.push(
                                    Action::CloseSocket {
                                        fd: client_socket,
                                        reason: DropReason::ParseFailed,
                                    },
                                );
                                Ok(actions)
                            } else {
                                let fs_path = file_path_for(req.path.as_str());
                                let mut actions: Vec<Action> = Vec::new();
                                actions.push(
                                    Action::ServeFile {
                                        fd: client_socket,
                                        fs_path,
                                        request_path: req.path,
                                    },
                                );
                                Ok(actions)
                            }
                        } else {
                            let (response, body) = make_error_response(
                                "400 Bad Request",
                                "unimplemented HTTP method",
                            );
                            proof {
                                lemma_reclaimed_fd_is_free(old(self).slots@, handle as int);
                            }
                            let write_h = match self.add_write_request(
                                client_socket,
                                response,
                                body,
                            ) {
                                Err(e) => {
                                    proof {
                                        // The reclaimed slot is free, so a
                                        // slot was found.
                                        assert(prev[handle as int] is None);
                                        assert(false);
                                    }
                                    return Err(e);
                                },
                                Ok(h) => h,
                            };
                            let mut actions: Vec<Action> = Vec::new();
                            actions.push(Action::SubmitWrite { handle: write_h, fd: client_socket });
                            Ok(actions)
                        }
                    },
                }
            },
            Event::WriteResponse { client_socket, .. } => {
                let mut actions: Vec<Action> = Vec::new();
                actions.push(
                    Action::CloseSocket { fd: client_socket, reason: DropReason::Finished },
                );
                Ok(actions)
            },
        }
    }

    /// Arms the write of a file request's response, given what the
    /// filesystem reported for the path a `ServeFile` action named. A
    /// filesystem failure other than a missing file becomes the
    /// internal-error page rather than a dropped connection. The socket is
    /// the one the action handed out, owned by no live token since its read
    /// token was reclaimed.
    pub fn submit_file_response(
        &mut self,
        fd: i32,
        fs_path: &str,
        request_path: &str,
        file: FileOutcome,
    ) -> (r: Result<Vec<Action>, ReactorError>)
        requires
            old(self).wf(),
            !spec_owns_fd(old(self).slots@, fd as int),
        ensures
            final(self).wf(),
            final(self).depth == old(self).depth,
            final(self).read_size == old(self).read_size,
            match r {
                Ok(actions) => {
                    let page = match spec_get_response(fs_path@, request_path@, file@) {
                        Ok(page) => page,
                        Err(msg) => spec_error_response(
                            "500 Internal Server Error"@,
                            "internal server error: "@ + msg,
                        ),
                    };
                    &&& actions@.len() == 1
                    &&& actions@[0] matches Action::SubmitWrite { handle, fd: f } && f == fd
                        && spec_armed_write(
                        old(self).slots@,
                        final(self).slots@,
                        handle as int,
                        fd,
                        spec_response_bytes(page.0, page.1),
                    ) && spec_frame(old(self).slots@, final(self).slots@, set![handle as int])
                },
                Err(e) => {
                    &&& e == ReactorError::QueueFull
                    &&& *final(self) == *old(self)
                    &&& forall|i: int| 0 <= i < old(self).slots@.len() ==> old(self).slots@[i] is Some
                },
            },
    {
        let page = match get_response(fs_path, request_path, file) {
            Ok(page) => page,
            Err(e) => {
                let mut msg = String::from_str("internal server error: ");
                msg.append(e.msg.as_str());
                make_error_response("500 Internal Server Error", msg.as_str())
            },
        };
        let (response, body) = page;
        let handle = match self.add_write_request(fd, response, body) {
            Err(e) => {
                return Err(e);
            },
            Ok(h) => h,
        };
        let mut actions: Vec<Action> = Vec::new();
        actions.push(Action::SubmitWrite { handle, fd });
        Ok(actions)
    }
}

} // verus!
