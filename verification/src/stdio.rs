//! File handles: what the layer asks of the host, and what it makes of the
//! host's answers.
//!
//! The host does the work on files. Each routine here is one decision: which
//! request goes to the host, or, given the host's reply, what the engine gets
//! back and what the error channel holds afterwards.

use crate::cstring::{as_rust_str, content};
use crate::ctype::{low_byte, to_byte};
use vstd::prelude::*;
use vstd::string::*;
use vstd::utf8::{is_scalar, valid_utf8};

verus! {

/// Error codes of the engine's vocabulary.
pub const ENOENT: i32 = 2;

pub const EISDIR: i32 = 21;

pub const EINVAL: i32 = 22;

/// The code for a failure that the vocabulary has no word for.
pub const EOTHER: i32 = 255;

/// Seek origins: the start of the file, the current position, the end.
pub const SEEK_SET: i32 = 0;

pub const SEEK_CUR: i32 = 1;

pub const SEEK_END: i32 = 2;

/// The process-wide status cell. It means something right after a call that
/// failed; a call that succeeds leaves it alone.
#[derive(Clone, Copy, Debug, PartialEq, Eq, Structural)]
pub struct ErrorChannel {
    pub errno: i32,
}

/// The kinds of failure that the host tells apart.
#[derive(Clone, Copy, Debug, PartialEq, Eq, Structural)]
pub enum HostErrorKind {
    NotAFile,
    NotFound,
    Other,
}

/// A failure reported by the host, with the host's own code for it.
#[derive(Clone, Copy, Debug, PartialEq, Eq, Structural)]
pub struct HostError {
    pub kind: HostErrorKind,
    pub code: i32,
}

/// How a file is to be opened.
#[derive(Clone, Copy, Debug, PartialEq, Eq, Structural)]
pub struct OpenMode {
    pub read: bool,
    pub write: bool,
    pub create: bool,
    pub truncate: bool,
    pub create_new: bool,
}

/// A request to the host to open a file.
#[derive(Clone, Debug, PartialEq, Eq)]
pub struct OpenRequest {
    /// The path from the root of the host's file system, in UTF-8.
    pub path: Vec<u8>,
    pub mode: OpenMode,
}

/// An open file, as the engine holds it.
#[derive(Clone, Debug, PartialEq, Eq)]
pub struct CFile {
    /// The path it was opened under, for diagnostics.
    pub path: Vec<u8>,
    /// Whether this is the handle of the process's standard error stream,
    /// which lives as long as the process.
    pub standard_error: bool,
}

/// What closing a handle asks of the host.
#[derive(Clone, Copy, Debug, PartialEq, Eq, Structural)]
pub enum CloseAction {
    /// Flush the stream and shut it down; the handle itself stays.
    Shutdown,
    /// Close the file and give the handle up.
    Release,
}

/// The mode that a mode string spells: `r` reads; `w` writes, creates the
/// file and truncates it; `x` demands that the file is new.
pub open spec fn mode_of(mode: Seq<u8>) -> OpenMode {
    OpenMode {
        read: mode.contains(0x72),
        write: mode.contains(0x77),
        create: mode.contains(0x77),
        truncate: mode.contains(0x77),
        create_new: mode.contains(0x78),
    }
}

/// A path of the engine, which is relative, as a path from the host's root.
pub open spec fn rooted(path: Seq<u8>) -> Seq<u8> {
    seq![0x2fu8] + path
}

/// The errno for a failed open.
pub open spec fn open_errno(kind: HostErrorKind) -> i32 {
    match kind {
        HostErrorKind::NotAFile => EISDIR,
        HostErrorKind::NotFound => ENOENT,
        HostErrorKind::Other => EOTHER,
    }
}

/// The absolute offset that a seek goes to, if there is one: `offset` from
/// the start, from `position` or from `length`, as `origin` says, where that
/// is an offset a file can have.
pub open spec fn seek_target(offset: i64, origin: i32, position: u64, length: u64) -> Option<
    int,
> {
    let base: Option<int> = if origin == SEEK_SET {
        Some(0int)
    } else if origin == SEEK_CUR {
        Some(position as int)
    } else if origin == SEEK_END {
        Some(length as int)
    } else {
        None
    };
    match base {
        Some(b) => if 0 <= b + offset <= u64::MAX {
            Some(b + offset)
        } else {
            None
        },
        None => None,
    }
}

/// The number of bytes that a transfer of `count` items of `size` bytes asks
/// the host for, if it asks for any.
pub open spec fn transfer_len(size: usize, count: usize) -> Option<int> {
    if size == 0 || count == 0 || size * count > usize::MAX {
        None
    } else {
        Some(size * count)
    }
}

/// A position of the host as the C type `long`.
pub open spec fn as_long(position: u64) -> int {
    if position <= i64::MAX {
        position as int
    } else {
        position - 0x1_0000_0000_0000_0000
    }
}

fn has_byte(s: &[u8], c: u8) -> (found: bool)
    ensures
        found == s@.contains(c),
{
    let mut i: usize = 0;
    while i < s.len()
        invariant
            0 <= i <= s.len(),
            forall|j: int| 0 <= j < i ==> s@[j] != c,
        decreases s.len() - i,
    {
        if s[i] == c {
            return true;
        }
        i += 1;
    }
    false
}

/// Reads a mode string.
pub fn parse_mode(mode: &[u8]) -> (m: OpenMode)
    ensures
        m == mode_of(mode@),
{
    let w = has_byte(mode, 0x77);
    let r = has_byte(mode, 0x72);
    let x = has_byte(mode, 0x78);
    OpenMode { read: r, write: w, create: w, truncate: w, create_new: x }
}

/// Puts the root in front of a path of the engine.
pub fn root_path(path: &[u8]) -> (full: Vec<u8>)
    ensures
        full@ == rooted(path@),
{
    let mut full: Vec<u8> = Vec::new();
    full.push(0x2f);
    let mut i: usize = 0;
    while i < path.len()
        invariant
            0 <= i <= path.len(),
            full@ == rooted(path@.take(i as int)),
        decreases path.len() - i,
    {
        full.push(path[i]);
        assert(rooted(path@.take(i as int)).push(path@[i as int]) =~= rooted(
            path@.take(i + 1),
        ));
        i += 1;
    }
    assert(path@.take(path@.len() as int) =~= path@);
    full
}

fn settle(reply: Result<(), HostError>, errno: &mut ErrorChannel) -> (ok: bool)
    ensures
        ok == reply is Ok,
        match reply {
            Ok(_) => *final(errno) == *old(errno),
            Err(e) => final(errno).errno == e.code,
        },
{
    match reply {
        Ok(_) => true,
        Err(e) => {
            errno.errno = e.code;
            false
        },
    }
}

/// Opening a file, first half: the request that goes to the host. Both
/// strings must be valid UTF-8. Else the open is refused here: there is no
/// request, the host is not asked, and the error channel holds the
/// catch-all code. The path is rooted.
pub fn fopen(filename: &[u8], mode: &[u8], errno: &mut ErrorChannel) -> (request: Option<
    OpenRequest,
>)
    ensures
        match request {
            Some(r) => {
                &&& valid_utf8(content(filename@))
                &&& valid_utf8(content(mode@))
                &&& r.path@ == rooted(content(filename@))
                &&& r.mode == mode_of(content(mode@))
                &&& *final(errno) == *old(errno)
            },
            None => {
                &&& !valid_utf8(content(filename@)) || !valid_utf8(content(mode@))
                &&& final(errno).errno == EOTHER
            },
        },
{
    let path = match as_rust_str(filename) {
        Some(p) => p,
        None => {
            errno.errno = EOTHER;
            return None;
        },
    };
    let mode = match as_rust_str(mode) {
        Some(m) => m,
        None => {
            errno.errno = EOTHER;
            return None;
        },
    };
    Some(OpenRequest { path: root_path(path.as_bytes()), mode: parse_mode(mode.as_bytes()) })
}

/// Opening a file, second half: the host's reply becomes a handle, or no
/// handle and an errno: not-a-file, not-found, or the catch-all.
pub fn fopen_reply(
    request: OpenRequest,
    reply: Result<(), HostError>,
    errno: &mut ErrorChannel,
) -> (file: Option<CFile>)
    ensures
        match reply {
            Ok(_) => {
                &&& file matches Some(f)
                &&& f.path@ == request.path@
                &&& !f.standard_error
                &&& *final(errno) == *old(errno)
            },
            Err(e) => file is None && final(errno).errno == open_errno(e.kind),
        },
{
    match reply {
        Ok(_) => Some(CFile { path: request.path, standard_error: false }),
        Err(e) => {
            errno.errno = match e.kind {
                HostErrorKind::NotAFile => EISDIR,
                HostErrorKind::NotFound => ENOENT,
                HostErrorKind::Other => EOTHER,
            };
            None
        },
    }
}

/// The handle of the process's standard error stream.
pub fn stderr_handle() -> (file: CFile)
    ensures
        file.standard_error,
        file.path@ == seq![0x3cu8, 0x73, 0x74, 0x64, 0x65, 0x72, 0x72, 0x3e],
{
    let mut path: Vec<u8> = Vec::new();
    path.push(0x3c);
    path.push(0x73);
    path.push(0x74);
    path.push(0x64);
    path.push(0x65);
    path.push(0x72);
    path.push(0x72);
    path.push(0x3e);
    assert(path@ =~= seq![0x3cu8, 0x73, 0x74, 0x64, 0x65, 0x72, 0x72, 0x3e]);
    CFile { path, standard_error: true }
}

/// The position in a file, from the host's answer to the question: the
/// position as a `long`, or -1 with the host's code in the error channel.
pub fn ftell(reply: Result<u64, HostError>, errno: &mut ErrorChannel) -> (position: i64)
    ensures
        match reply {
            Ok(p) => position == as_long(p) && *final(errno) == *old(errno),
            Err(e) => position == -1 && final(errno).errno == e.code,
        },
{
    match reply {
        Ok(p) => if p <= 0x7fff_ffff_ffff_ffff {
            p as i64
        } else {
            ((p - 0x8000_0000_0000_0000) as i64) + i64::MIN
        },
        Err(e) => {
            errno.errno = e.code;
            -1
        },
    }
}

/// Files are not buffered here, so there is nothing to flush.
pub fn fflush(stream: &CFile) -> (r: i32)
    ensures
        r == 0,
{
    0
}

/// Seeking, first half: the absolute offset to ask the host for, given where
/// the file stands and how long it is. An origin that is none of the three,
/// or an offset that leads before the start or past what an offset can
/// hold, is refused with `EINVAL`.
pub fn fseek(offset: i64, origin: i32, position: u64, length: u64, errno: &mut ErrorChannel) -> (target:
    Option<u64>)
    ensures
        match seek_target(offset, origin, position, length) {
            Some(t) => target matches Some(x) && x == t && *final(errno) == *old(errno),
            None => target is None && final(errno).errno == EINVAL,
        },
{
    let base: u64 = if origin == SEEK_SET {
        0
    } else if origin == SEEK_CUR {
        position
    } else if origin == SEEK_END {
        length
    } else {
        errno.errno = EINVAL;
        return None;
    };
    let target = if offset >= 0 {
        base.checked_add(offset as u64)
    } else {
        // the distance back is at most 2^63, which is -(offset + 1) + 1
        let back: u64 = ((-(offset + 1)) as u64) + 1;
        base.checked_sub(back)
    };
    if target.is_none() {
        errno.errno = EINVAL;
    }
    target
}

/// Seeking, second half: 0 if the host moved the position, else 1 with the
/// host's code in the error channel.
pub fn fseek_reply(reply: Result<(), HostError>, errno: &mut ErrorChannel) -> (r: i32)
    ensures
        match reply {
            Ok(_) => r == 0 && *final(errno) == *old(errno),
            Err(e) => r == 1 && final(errno).errno == e.code,
        },
{
    if settle(reply, errno) {
        0
    } else {
        1
    }
}

fn transfer(size: usize, count: usize) -> (len: Option<usize>)
    ensures
        match transfer_len(size, count) {
            Some(n) => len matches Some(x) && x == n,
            None => len is None,
        },
{
    if size == 0 || count == 0 {
        return None;
    }
    size.checked_mul(count)
}

fn transferred(count: usize, reply: Result<(), HostError>, errno: &mut ErrorChannel) -> (n: usize)
    ensures
        match reply {
            Ok(_) => n == count && *final(errno) == *old(errno),
            Err(e) => n == 0 && final(errno).errno == e.code,
        },
{
    if settle(reply, errno) {
        count
    } else {
        0
    }
}

/// Reading, first half: the number of bytes to ask the host for, all of
/// which it must deliver. With no items, or items of no size, nothing is
/// asked and the read returns 0; so it does when the total does not fit the
/// address space.
pub fn fread(size: usize, count: usize) -> (len: Option<usize>)
    ensures
        match transfer_len(size, count) {
            Some(n) => len matches Some(x) && x == n,
            None => len is None,
        },
{
    transfer(size, count)
}

/// Reading, second half: all `count` items if the host delivered every byte;
/// else none, with the host's code in the error channel. A short read counts
/// as a failure.
pub fn fread_reply(count: usize, reply: Result<(), HostError>, errno: &mut ErrorChannel) -> (n:
    usize)
    ensures
        match reply {
            Ok(_) => n == count && *final(errno) == *old(errno),
            Err(e) => n == 0 && final(errno).errno == e.code,
        },
{
    transferred(count, reply, errno)
}

/// Writing, first half: the number of bytes to hand to the host in one
/// blocking write. With no items, or items of no size, nothing is written and
/// the write returns 0; so it does when the total does not fit the address
/// space.
pub fn fwrite(size: usize, count: usize) -> (len: Option<usize>)
    ensures
        match transfer_len(size, count) {
            Some(n) => len matches Some(x) && x == n,
            None => len is None,
        },
{
    transfer(size, count)
}

/// Writing, second half: all `count` items if the host took every byte; else
/// none, with the host's code in the error channel.
pub fn fwrite_reply(count: usize, reply: Result<(), HostError>, errno: &mut ErrorChannel) -> (n:
    usize)
    ensures
        match reply {
            Ok(_) => n == count && *final(errno) == *old(errno),
            Err(e) => n == 0 && final(errno).errno == e.code,
        },
{
    transferred(count, reply, errno)
}

/// Closing a handle: the standard error stream is shut down and its handle
/// stays; any other handle is given up with its file.
pub fn fclose(stream: &CFile) -> (action: CloseAction)
    ensures
        action == if stream.standard_error {
            CloseAction::Shutdown
        } else {
            CloseAction::Release
        },
{
    if stream.standard_error {
        CloseAction::Shutdown
    } else {
        CloseAction::Release
    }
}

/// Making a directory, first half: the rooted path to ask the host for. A
/// path that is not valid UTF-8 is refused here: the host is not asked, and
/// the error channel holds the catch-all code.
pub fn mkdir(path: &[u8], errno: &mut ErrorChannel) -> (full: Option<Vec<u8>>)
    ensures
        match full {
            Some(p) => {
                &&& valid_utf8(content(path@))
                &&& p@ == rooted(content(path@))
                &&& *final(errno) == *old(errno)
            },
            None => !valid_utf8(content(path@)) && final(errno).errno == EOTHER,
        },
{
    match as_rust_str(path) {
        Some(p) => Some(root_path(p.as_bytes())),
        None => {
            errno.errno = EOTHER;
            None
        },
    }
}

/// Making a directory, second half: 0 if the host did, else -1 with the
/// host's code in the error channel.
pub fn mkdir_reply(reply: Result<(), HostError>, errno: &mut ErrorChannel) -> (r: i32)
    ensures
        match reply {
            Ok(_) => r == 0 && *final(errno) == *old(errno),
            Err(e) => r == -1 && final(errno).errno == e.code,
        },
{
    if settle(reply, errno) {
        0
    } else {
        -1
    }
}

/// The byte that writing the character `ch` puts into a file.
pub fn fputc(ch: i32) -> (byte: u8)
    ensures
        byte == low_byte(ch as int),
{
    to_byte(ch)
}

/// `char::from_u32`: the character with the code `code`, which there is
/// exactly when the code is a Unicode scalar value.
#[verifier::external_body]
fn scalar(code: u32) -> (c: Option<char>)
    ensures
        match c {
            Some(ch) => is_scalar(code) && ch as u32 == code,
            None => !is_scalar(code),
        },
{
    char::from_u32(code)
}

/// The bits of a C `int` read as an unsigned number.
pub open spec fn unsigned_of(n: i32) -> int {
    if n < 0 {
        n + 0x1_0000_0000
    } else {
        n as int
    }
}

/// The character to print for the code `character`, if it is the code of
/// one: the Unicode scalar values are, and nothing else is.
pub fn putchar(character: i32) -> (c: Option<char>)
    ensures
        match c {
            Some(ch) => is_scalar(unsigned_of(character) as u32) && ch as u32 == unsigned_of(
                character,
            ),
            None => !is_scalar(unsigned_of(character) as u32),
        },
{
    let code: u32 = if character < 0 {
        ((character - i32::MIN) as u32) + 0x8000_0000
    } else {
        character as u32
    };
    scalar(code)
}

/// What a host hands out when it is asked for exactly `len` bytes of a file
/// that holds `data` and stands at `position`: the bytes from there on, if
/// the file has that many.
pub open spec fn read_exact_at(data: Seq<u8>, position: int, len: int) -> Option<Seq<u8>> {
    if 0 <= position && 0 <= len && position + len <= data.len() {
        Some(data.subrange(position, position + len))
    } else {
        None
    }
}

/// Seek, tell and read agree on the length of a file. For a file that holds
/// `data`, wherever it stands: a seek to the end by 0 goes to the offset that
/// is the file's length, and the position asked for afterwards reads as that
/// length exactly when the length is one that a C `long` holds; a seek to the
/// start by 0 goes to offset 0, and a read of the whole file from there, byte
/// by byte, asks the host for as many bytes as the file holds, which are the
/// file's contents.
pub proof fn lemma_seek_tell_read(data: Seq<u8>, position: u64)
    requires
        data.len() <= usize::MAX,
    ensures
        seek_target(0, SEEK_END, position, data.len() as u64) == Some(data.len() as int),
        as_long(data.len() as u64) == data.len() <==> data.len() <= i64::MAX,
        seek_target(0, SEEK_SET, position, data.len() as u64) == Some(0int),
        data.len() > 0 ==> transfer_len(1, data.len() as usize) == Some(data.len() as int),
        read_exact_at(data, 0, data.len() as int) == Some(data),
{
    assert(data.subrange(0, data.len() as int) =~= data);
}

} // verus!
