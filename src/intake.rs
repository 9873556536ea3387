use vstd::prelude::*;
use vstd::string::StringSliceAdditionalSpecFns;

verus! {

/// Largest accepted upload body, in bytes (1 MiB).
pub const MAX_BODY_LEN: usize = 1048576;

/// Status of an accepted upload.
pub const STATUS_OK: u16 = 200;

/// Status of a refused upload.
pub const STATUS_BAD_REQUEST: u16 = 400;

/// One uploaded payload with its name, waiting to be relayed.
pub struct File {
    pub data: Vec<u8>,
    pub name: String,
}

/// Why an upload was refused.
#[derive(Clone, Copy, Debug, PartialEq, Eq, Structural)]
pub enum UploadError {
    /// The filename header was absent, or reading the body failed.
    MissingData,
    /// The body was longer than `MAX_BODY_LEN`.
    DataTooLong,
}

pub open spec fn is_digit_byte(b: u8) -> bool {
    48 <= b <= 57
}

/// Value of a run of ASCII decimal digits.
pub open spec fn digits_value(s: Seq<u8>) -> nat
    decreases s.len(),
{
    if s.len() == 0 {
        0
    } else {
        digits_value(s.drop_last()) * 10 + (s.last() - 48) as nat
    }
}

/// The digits of a header value: an optional leading `+` is dropped.
pub open spec fn digits_of(s: Seq<u8>) -> Seq<u8> {
    if s.len() > 0 && s[0] == 43 {
        s.drop_first()
    } else {
        s
    }
}

/// A header value reads as an unsigned decimal number.
pub open spec fn is_decimal(s: Seq<u8>) -> bool {
    let d = digits_of(s);
    d.len() > 0 && forall|i: int| 0 <= i < d.len() ==> is_digit_byte(#[trigger] d[i])
}

/// The buffer size that a length hint asks for: its value when it is a
/// number no larger than `MAX_BODY_LEN`, and nothing otherwise.
pub open spec fn capacity_for(s: Seq<u8>) -> nat {
    if is_decimal(s) && digits_value(digits_of(s)) <= MAX_BODY_LEN {
        digits_value(digits_of(s))
    } else {
        0
    }
}

pub open spec fn hint_capacity(header: Option<&str>) -> nat {
    match header {
        Some(h) => capacity_for(h.spec_bytes()),
        None => 0,
    }
}

/// What an upload comes to: the filename header, whether reading the body
/// failed, and the whole body as sent.
pub open spec fn upload_outcome(name: Option<Seq<char>>, read_ok: bool, body: Seq<u8>) -> Result<
    (Seq<char>, Seq<u8>),
    UploadError,
> {
    match name {
        None => Err(UploadError::MissingData),
        Some(n) => if !read_ok {
            Err(UploadError::MissingData)
        } else if body.len() > MAX_BODY_LEN {
            Err(UploadError::DataTooLong)
        } else {
            Ok((n, body))
        },
    }
}

pub open spec fn name_view(name: Option<String>) -> Option<Seq<char>> {
    match name {
        Some(n) => Some(n@),
        None => None,
    }
}

/// A file as its name and its bytes.
pub open spec fn file_view(r: Result<File, UploadError>) -> Result<(Seq<char>, Seq<u8>), UploadError> {
    match r {
        Ok(f) => Ok((f.name@, f.data@)),
        Err(e) => Err(e),
    }
}

pub open spec fn error_text(e: UploadError) -> Seq<char> {
    match e {
        UploadError::MissingData => "Missing data!"@,
        UploadError::DataTooLong => "Data too long!"@,
    }
}

/// Status and text of the reply to an upload.
pub open spec fn reply_of(outcome: Option<UploadError>) -> (u16, Seq<char>) {
    match outcome {
        None => (STATUS_OK, "Data received!"@),
        Some(e) => (STATUS_BAD_REQUEST, error_text(e)),
    }
}

/// A named upload whose body fits is accepted whole: one file with the same
/// name and the same bytes, and the reply is 200 "Data received!".
pub proof fn lemma_fitting_upload_accepted(name: Seq<char>, body: Seq<u8>)
    requires
        body.len() <= MAX_BODY_LEN,
    ensures
        upload_outcome(Some(name), true, body) == Ok::<(Seq<char>, Seq<u8>), UploadError>((name, body)),
        reply_of(None) == (STATUS_OK, "Data received!"@),
{
}

/// A body longer than `MAX_BODY_LEN` gives no file, and the reply is 400
/// "Data too long!".
pub proof fn lemma_long_upload_refused(name: Seq<char>, body: Seq<u8>)
    requires
        body.len() > MAX_BODY_LEN,
    ensures
        upload_outcome(Some(name), true, body) == Err::<(Seq<char>, Seq<u8>), UploadError>(
            UploadError::DataTooLong,
        ),
        reply_of(Some(UploadError::DataTooLong)) == (STATUS_BAD_REQUEST, "Data too long!"@),
{
}

/// Without a filename there is no file, whatever the body, and the reply is
/// 400 "Missing data!".
pub proof fn lemma_unnamed_upload_refused(read_ok: bool, body: Seq<u8>)
    ensures
        upload_outcome(None, read_ok, body) == Err::<(Seq<char>, Seq<u8>), UploadError>(
            UploadError::MissingData,
        ),
        reply_of(Some(UploadError::MissingData)) == (STATUS_BAD_REQUEST, "Missing data!"@),
{
}

proof fn lemma_digits_push(s: Seq<u8>, i: int)
    requires
        0 <= i < s.len(),
    ensures
        digits_value(s.take(i + 1)) == digits_value(s.take(i)) * 10 + (s[i] - 48) as nat,
{
    assert(s.take(i + 1).drop_last() =~= s.take(i));
}

/// Buffer size for an upload whose length hint is `header`.
pub fn capacity_hint(header: Option<&str>) -> (r: usize)
    ensures
        r as nat == hint_capacity(header),
{
    let h = match header {
        Some(h) => h,
        None => return 0,
    };
    let b = h.as_bytes();
    let n = b.len();
    let mut start: usize = 0;
    if n > 0 && b[0] == 43u8 {
        start = 1;
    }
    proof {
        assert(digits_of(b@) =~= b@.subrange(start as int, n as int));
    }
    if start >= n {
        return 0;
    }
    let ghost d = b@.subrange(start as int, n as int);
    assert(digits_of(h.spec_bytes()) == d);
    let mut acc: usize = 0;
    let mut i: usize = start;
    while i < n
        invariant
            start <= i <= n,
            n == b@.len(),
            d == b@.subrange(start as int, n as int),
            acc as nat == digits_value(d.take(i - start)),
            acc <= MAX_BODY_LEN,
            forall|k: int| 0 <= k < i - start ==> is_digit_byte(#[trigger] d[k]),
            digits_of(h.spec_bytes()) == d,
            header == Some(h),
        decreases n - i,
    {
        let c = b[i];
        if c < 48u8 || c > 57u8 {
            assert(!is_digit_byte(d[i - start]));
            assert(!is_decimal(h.spec_bytes()));
            return 0;
        }
        proof {
            lemma_digits_push(d, i - start);
        }
        let next = acc * 10 + (c - 48u8) as usize;
        if next > MAX_BODY_LEN {
            proof {
                if is_decimal(h.spec_bytes()) {
                    assert(forall|j: int| 0 <= j < d.len() ==> is_digit_byte(#[trigger] d[j]));
                    lemma_digits_grow(d, i - start + 1);
                }
            }
            return 0;
        }
        acc = next;
        i = i + 1;
    }
    assert(d.take(n - start) =~= d);
    acc
}

proof fn lemma_digits_grow(d: Seq<u8>, k: int)
    requires
        0 <= k <= d.len(),
        forall|j: int| 0 <= j < d.len() ==> is_digit_byte(#[trigger] d[j]),
    ensures
        digits_value(d) >= digits_value(d.take(k)),
    decreases d.len() - k,
{
    if k < d.len() {
        lemma_digits_grow(d, k + 1);
        lemma_digits_push(d, k);
    } else {
        assert(d.take(k) =~= d);
    }
}

/// A body being received, kept up to `MAX_BODY_LEN` bytes.
///
/// `received` is everything handed in so far; the buffer holds its first
/// `MAX_BODY_LEN` bytes and `overflow` says whether there was more.
pub struct BodyIntake {
    data: Vec<u8>,
    overflow: bool,
    received: Ghost<Seq<u8>>,
}

impl View for BodyIntake {
    type V = Seq<u8>;

    /// Every byte handed in so far.
    closed spec fn view(&self) -> Seq<u8> {
        self.received@
    }
}

impl BodyIntake {
    pub open spec fn kept(received: Seq<u8>) -> Seq<u8> {
        if received.len() <= MAX_BODY_LEN {
            received
        } else {
            received.take(MAX_BODY_LEN as int)
        }
    }

    pub closed spec fn wf(&self) -> bool {
        &&& self.data@ == Self::kept(self.received@)
        &&& self.overflow == (self.received@.len() > MAX_BODY_LEN)
    }

    /// An empty intake with room for `capacity` bytes.
    pub fn new(capacity: usize) -> (r: Self)
        ensures
            r.wf(),
            r@ == Seq::<u8>::empty(),
    {
        let c = if capacity <= MAX_BODY_LEN { capacity } else { 0 };
        BodyIntake { data: Vec::with_capacity(c), overflow: false, received: Ghost(Seq::empty()) }
    }

    /// Whether more than `MAX_BODY_LEN` bytes have come in: nothing further
    /// needs reading.
    pub fn overflowed(&self) -> (r: bool)
        requires
            self.wf(),
        ensures
            r == (self@.len() > MAX_BODY_LEN),
    {
        self.overflow
    }

    /// Takes in the next bytes of the body.
    pub fn push(&mut self, chunk: &[u8])
        requires
            old(self).wf(),
        ensures
            final(self).wf(),
            final(self)@ == old(self)@ + chunk@,
    {
        let ghost before = self.received@;
        let mut i: usize = 0;
        while i < chunk.len()
            invariant
                i <= chunk@.len(),
                self.received@ == before + chunk@.take(i as int),
                self.wf(),
            decreases chunk@.len() - i,
        {
            let ghost prev = self.received@;
            if self.data.len() < MAX_BODY_LEN {
                self.data.push(chunk[i]);
            } else {
                self.overflow = true;
            }
            self.received = Ghost(prev.push(chunk@[i as int]));
            proof {
                assert(chunk@.take(i + 1) =~= chunk@.take(i as int).push(chunk@[i as int]));
                assert(self.data@ =~= Self::kept(self.received@));
            }
            i = i + 1;
        }
        assert(chunk@.take(chunk@.len() as int) =~= chunk@);
    }

    /// Ends the upload: the file when the name is there, reading did not
    /// fail and the body fit, else why not.
    pub fn finish(self, name: Option<String>, read_ok: bool) -> (r: Result<File, UploadError>)
        requires
            self.wf(),
        ensures
            file_view(r) == upload_outcome(name_view(name), read_ok, self@),
    {
        match name {
            None => Err(UploadError::MissingData),
            Some(n) => {
                if !read_ok {
                    Err(UploadError::MissingData)
                } else if self.overflow {
                    Err(UploadError::DataTooLong)
                } else {
                    Ok(File { data: self.data, name: n })
                }
            },
        }
    }
}

impl UploadError {
    /// Status of the reply for this error.
    pub fn status(&self) -> (r: u16)
        ensures
            r == reply_of(Some(*self)).0,
    {
        STATUS_BAD_REQUEST
    }

    /// Text of the reply for this error.
    pub fn message(&self) -> (r: &'static str)
        ensures
            r@ == reply_of(Some(*self)).1,
    {
        match self {
            UploadError::MissingData => "Missing data!",
            UploadError::DataTooLong => "Data too long!",
        }
    }
}

/// Status and text of the reply to an upload that failed with `outcome`,
/// or succeeded where it is `None`.
pub fn upload_reply(outcome: Option<UploadError>) -> (r: (u16, &'static str))
    ensures
        r.0 == reply_of(outcome).0,
        r.1@ == reply_of(outcome).1,
{
    match outcome {
        None => (STATUS_OK, "Data received!"),
        Some(e) => (e.status(), e.message()),
    }
}

} // verus!
