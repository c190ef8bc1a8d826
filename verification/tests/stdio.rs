use crt_shim::stdio::{
    fclose, fflush, fopen, fopen_reply, fputc, fread, fread_reply, fseek, fseek_reply, ftell,
    fwrite, fwrite_reply, mkdir, mkdir_reply, parse_mode, putchar, root_path, stderr_handle,
    CFile, CloseAction, ErrorChannel, HostError, HostErrorKind, OpenMode, OpenRequest, EINVAL,
    EISDIR, ENOENT, EOTHER, SEEK_CUR, SEEK_END, SEEK_SET,
};

/// A host that keeps its files in memory.
struct FakeHost {
    files: Vec<(Vec<u8>, Vec<u8>)>,
}

/// What the fake host keeps for an open file.
struct FakeOpen {
    index: usize,
    position: u64,
    mode: OpenMode,
}

const HOST_NOT_FOUND: i32 = 7;
const HOST_DENIED: i32 = 13;
const HOST_EOF: i32 = 31;

impl FakeHost {
    fn open(&mut self, request: &OpenRequest) -> Result<FakeOpen, HostError> {
        let found = self.files.iter().position(|(path, _)| *path == request.path);
        let index = match found {
            Some(_) if request.mode.create_new => {
                return Err(HostError { kind: HostErrorKind::Other, code: HOST_DENIED });
            }
            Some(i) => i,
            None if request.mode.create || request.mode.create_new => {
                self.files.push((request.path.clone(), Vec::new()));
                self.files.len() - 1
            }
            None => {
                return Err(HostError { kind: HostErrorKind::NotFound, code: HOST_NOT_FOUND });
            }
        };
        if request.mode.truncate {
            self.files[index].1.clear();
        }
        Ok(FakeOpen { index, position: 0, mode: request.mode })
    }

    fn metadata(&self, open: &FakeOpen) -> (u64, u64) {
        (open.position, self.files[open.index].1.len() as u64)
    }

    fn write_all(&mut self, open: &mut FakeOpen, bytes: &[u8]) -> Result<(), HostError> {
        if !open.mode.write {
            return Err(HostError { kind: HostErrorKind::Other, code: HOST_DENIED });
        }
        let data = &mut self.files[open.index].1;
        let at = open.position as usize;
        if data.len() < at + bytes.len() {
            data.resize(at + bytes.len(), 0);
        }
        data[at..at + bytes.len()].copy_from_slice(bytes);
        open.position += bytes.len() as u64;
        Ok(())
    }

    fn read_exact(&mut self, open: &mut FakeOpen, len: usize) -> Result<Vec<u8>, HostError> {
        if !open.mode.read {
            return Err(HostError { kind: HostErrorKind::Other, code: HOST_DENIED });
        }
        let data = &self.files[open.index].1;
        let at = open.position as usize;
        if at > data.len() || data.len() - at < len {
            return Err(HostError { kind: HostErrorKind::Other, code: HOST_EOF });
        }
        open.position += len as u64;
        Ok(data[at..at + len].to_vec())
    }
}

fn shim_fopen(
    host: &mut FakeHost,
    errno: &mut ErrorChannel,
    name: &[u8],
    mode: &[u8],
) -> Option<(CFile, FakeOpen)> {
    let request = fopen(name, mode, errno)?;
    match host.open(&request) {
        Ok(open) => fopen_reply(request, Ok(()), errno).map(|file| (file, open)),
        Err(e) => {
            assert_eq!(fopen_reply(request, Err(e), errno), None);
            None
        }
    }
}

fn shim_fwrite(
    host: &mut FakeHost,
    errno: &mut ErrorChannel,
    open: &mut FakeOpen,
    bytes: &[u8],
    size: usize,
    count: usize,
) -> usize {
    match fwrite(size, count) {
        Some(len) => {
            let reply = host.write_all(open, &bytes[..len]);
            fwrite_reply(count, reply, errno)
        }
        None => 0,
    }
}

fn shim_fread(
    host: &mut FakeHost,
    errno: &mut ErrorChannel,
    open: &mut FakeOpen,
    dst: &mut Vec<u8>,
    size: usize,
    count: usize,
) -> usize {
    match fread(size, count) {
        Some(len) => match host.read_exact(open, len) {
            Ok(bytes) => {
                *dst = bytes;
                fread_reply(count, Ok(()), errno)
            }
            Err(e) => fread_reply(count, Err(e), errno),
        },
        None => 0,
    }
}

fn shim_fseek(
    host: &FakeHost,
    errno: &mut ErrorChannel,
    open: &mut FakeOpen,
    offset: i64,
    origin: i32,
) -> i32 {
    let (position, length) = host.metadata(open);
    match fseek(offset, origin, position, length, errno) {
        Some(target) => {
            open.position = target;
            fseek_reply(Ok(()), errno)
        }
        None => 1,
    }
}

fn shim_ftell(host: &FakeHost, errno: &mut ErrorChannel, open: &FakeOpen) -> i64 {
    ftell(Ok(host.metadata(open).0), errno)
}

#[test]
fn write_close_reopen_seek_tell_read() {
    let mut host = FakeHost { files: Vec::new() };
    let mut errno = ErrorChannel { errno: 0 };
    let content = b"0123456789";

    let (file, mut open) = shim_fopen(&mut host, &mut errno, b"save.dat\0", b"w\0").unwrap();
    assert_eq!(file.path, b"/save.dat".to_vec());
    assert_eq!(shim_fwrite(&mut host, &mut errno, &mut open, content, 1, 10), 10);
    assert_eq!(fclose(&file), CloseAction::Release);

    let (file, mut open) = shim_fopen(&mut host, &mut errno, b"save.dat\0", b"r\0").unwrap();
    assert_eq!(shim_fseek(&host, &mut errno, &mut open, 0, SEEK_END), 0);
    assert_eq!(shim_ftell(&host, &mut errno, &open), 10);
    assert_eq!(shim_fseek(&host, &mut errno, &mut open, 0, SEEK_SET), 0);
    assert_eq!(shim_ftell(&host, &mut errno, &open), 0);
    let mut back = Vec::new();
    assert_eq!(shim_fread(&mut host, &mut errno, &mut open, &mut back, 1, 10), 10);
    assert_eq!(back, content.to_vec());
    assert_eq!(fclose(&file), CloseAction::Release);
    assert_eq!(errno.errno, 0);
}

#[test]
fn short_read_is_a_failure() {
    let mut host = FakeHost { files: vec![(b"/five".to_vec(), b"12345".to_vec())] };
    let mut errno = ErrorChannel { errno: 0 };
    let (_file, mut open) = shim_fopen(&mut host, &mut errno, b"five\0", b"r\0").unwrap();
    let mut back = Vec::new();
    assert_eq!(shim_fread(&mut host, &mut errno, &mut open, &mut back, 2, 4), 0);
    assert_eq!(errno.errno, HOST_EOF);
    assert!(back.is_empty());
    assert_eq!(shim_fread(&mut host, &mut errno, &mut open, &mut back, 5, 1), 1);
    assert_eq!(back, b"12345".to_vec());
}

#[test]
fn open_of_a_missing_file_sets_not_found() {
    let mut host = FakeHost { files: Vec::new() };
    let mut errno = ErrorChannel { errno: 0 };
    assert!(shim_fopen(&mut host, &mut errno, b"nothing.wad\0", b"rb\0").is_none());
    assert_eq!(errno.errno, ENOENT);
    assert_eq!(errno.errno, 2);
}

#[test]
fn mode_letters() {
    let none = OpenMode { read: false, write: false, create: false, truncate: false, create_new: false };
    assert_eq!(parse_mode(b""), none);
    assert_eq!(parse_mode(b"r"), OpenMode { read: true, ..none });
    assert_eq!(parse_mode(b"rb"), OpenMode { read: true, ..none });
    assert_eq!(
        parse_mode(b"w"),
        OpenMode { write: true, create: true, truncate: true, ..none }
    );
    assert_eq!(
        parse_mode(b"wb"),
        OpenMode { write: true, create: true, truncate: true, ..none }
    );
    assert_eq!(
        parse_mode(b"wx"),
        OpenMode { write: true, create: true, truncate: true, create_new: true, ..none }
    );
    assert_eq!(
        parse_mode(b"rw"),
        OpenMode { read: true, write: true, create: true, truncate: true, ..none }
    );
    assert_eq!(parse_mode(b"x"), OpenMode { create_new: true, ..none });
    assert_eq!(parse_mode(b"a+"), none);
}

#[test]
fn paths_are_rooted() {
    assert_eq!(root_path(b"doom1.wad"), b"/doom1.wad".to_vec());
    assert_eq!(root_path(b""), b"/".to_vec());
    assert_eq!(root_path(b"/abs"), b"//abs".to_vec());
}

#[test]
fn fopen_request_holds_rooted_path_and_mode() {
    let mut errno = ErrorChannel { errno: 4 };
    let request = fopen(b"doom1.wad\0junk", b"rb\0junk", &mut errno).unwrap();
    assert_eq!(request.path, b"/doom1.wad".to_vec());
    assert_eq!(request.mode, parse_mode(b"rb"));
    // a request that goes out leaves the channel alone
    assert_eq!(errno.errno, 4);
}

#[test]
fn fopen_refuses_text_that_is_not_utf8() {
    let mut errno = ErrorChannel { errno: 0 };
    assert_eq!(fopen(b"bad\xffname\0", b"r\0", &mut errno), None);
    assert_eq!(errno.errno, EOTHER);
    assert_eq!(errno.errno, 255);
    errno.errno = 0;
    assert_eq!(fopen(b"\xff\0", b"r\0", &mut errno), None);
    assert_eq!(errno.errno, 255);
    errno.errno = 0;
    assert_eq!(fopen(b"name\0", b"r\xc3\0", &mut errno), None);
    assert_eq!(errno.errno, 255);
    errno.errno = 0;
    // valid UTF-8 of more than one byte passes
    let request = fopen("sp\u{e4}\u{e4}\0".as_bytes(), b"r\0", &mut errno).unwrap();
    assert_eq!(request.path, "/sp\u{e4}\u{e4}".as_bytes().to_vec());
    assert_eq!(errno.errno, 0);
}

#[test]
fn refused_open_does_not_reach_the_host() {
    let mut host = FakeHost { files: vec![(b"/\xff".to_vec(), Vec::new())] };
    let mut errno = ErrorChannel { errno: 0 };
    assert!(shim_fopen(&mut host, &mut errno, b"\xff\0", b"w\0").is_none());
    assert_eq!(errno.errno, EOTHER);
    assert_eq!(host.files.len(), 1);
}

#[test]
fn fopen_reply_maps_host_errors() {
    let mut errno = ErrorChannel { errno: 0 };
    let request = fopen(b"a\0", b"r\0", &mut errno).unwrap();
    let not_a_file = HostError { kind: HostErrorKind::NotAFile, code: 40 };
    assert_eq!(fopen_reply(request.clone(), Err(not_a_file), &mut errno), None);
    assert_eq!(errno.errno, EISDIR);
    assert_eq!(errno.errno, 21);
    let not_found = HostError { kind: HostErrorKind::NotFound, code: 41 };
    assert_eq!(fopen_reply(request.clone(), Err(not_found), &mut errno), None);
    assert_eq!(errno.errno, 2);
    let other = HostError { kind: HostErrorKind::Other, code: 42 };
    assert_eq!(fopen_reply(request.clone(), Err(other), &mut errno), None);
    assert_eq!(errno.errno, EOTHER);
    assert_eq!(errno.errno, 255);
    let file = fopen_reply(request, Ok(()), &mut errno).unwrap();
    assert_eq!(file, CFile { path: b"/a".to_vec(), standard_error: false });
    // a call that succeeds leaves the channel alone
    assert_eq!(errno.errno, 255);
}

#[test]
fn ftell_reports_position_or_minus_one() {
    let mut errno = ErrorChannel { errno: 5 };
    assert_eq!(ftell(Ok(0), &mut errno), 0);
    assert_eq!(ftell(Ok(1234), &mut errno), 1234);
    assert_eq!(ftell(Ok(i64::MAX as u64), &mut errno), i64::MAX);
    assert_eq!(ftell(Ok(u64::MAX), &mut errno), -1);
    assert_eq!(ftell(Ok(1 << 63), &mut errno), i64::MIN);
    assert_eq!(errno.errno, 5);
    let failed = HostError { kind: HostErrorKind::Other, code: 77 };
    assert_eq!(ftell(Err(failed), &mut errno), -1);
    assert_eq!(errno.errno, 77);
}

#[test]
fn fseek_targets() {
    let mut errno = ErrorChannel { errno: 0 };
    assert_eq!(fseek(0, SEEK_END, 3, 10, &mut errno), Some(10));
    assert_eq!(fseek(0, SEEK_SET, 3, 10, &mut errno), Some(0));
    assert_eq!(fseek(0, SEEK_CUR, 3, 10, &mut errno), Some(3));
    assert_eq!(fseek(7, SEEK_SET, 3, 10, &mut errno), Some(7));
    assert_eq!(fseek(4, SEEK_CUR, 3, 10, &mut errno), Some(7));
    assert_eq!(fseek(-3, SEEK_CUR, 3, 10, &mut errno), Some(0));
    assert_eq!(fseek(-4, SEEK_END, 3, 10, &mut errno), Some(6));
    assert_eq!(fseek(5, SEEK_END, 3, 10, &mut errno), Some(15));
    assert_eq!(fseek(i64::MAX, SEEK_CUR, 1, 0, &mut errno), Some(1 << 63));
    assert_eq!(fseek(i64::MIN, SEEK_END, 0, 1 << 63, &mut errno), Some(0));
    assert_eq!(fseek(-1, SEEK_END, 0, u64::MAX, &mut errno), Some(u64::MAX - 1));
    assert_eq!(errno.errno, 0);
}

#[test]
fn fseek_refusals() {
    let mut errno = ErrorChannel { errno: 0 };
    assert_eq!(fseek(-1, SEEK_SET, 3, 10, &mut errno), None);
    assert_eq!(errno.errno, EINVAL);
    errno.errno = 0;
    assert_eq!(fseek(-4, SEEK_CUR, 3, 10, &mut errno), None);
    assert_eq!(errno.errno, 22);
    errno.errno = 0;
    assert_eq!(fseek(-11, SEEK_END, 3, 10, &mut errno), None);
    assert_eq!(errno.errno, EINVAL);
    errno.errno = 0;
    assert_eq!(fseek(1, SEEK_END, 0, u64::MAX, &mut errno), None);
    assert_eq!(errno.errno, EINVAL);
    errno.errno = 0;
    assert_eq!(fseek(0, 3, 3, 10, &mut errno), None);
    assert_eq!(errno.errno, EINVAL);
    errno.errno = 0;
    assert_eq!(fseek(0, -1, 3, 10, &mut errno), None);
    assert_eq!(errno.errno, EINVAL);
}

#[test]
fn fseek_reply_values() {
    let mut errno = ErrorChannel { errno: 9 };
    assert_eq!(fseek_reply(Ok(()), &mut errno), 0);
    assert_eq!(errno.errno, 9);
    let failed = HostError { kind: HostErrorKind::Other, code: 12 };
    assert_eq!(fseek_reply(Err(failed), &mut errno), 1);
    assert_eq!(errno.errno, 12);
}

#[test]
fn transfer_lengths() {
    assert_eq!(fread(4, 3), Some(12));
    assert_eq!(fwrite(4, 3), Some(12));
    assert_eq!(fread(1, 10), Some(10));
    assert_eq!(fread(0, 3), None);
    assert_eq!(fread(3, 0), None);
    assert_eq!(fwrite(0, 3), None);
    assert_eq!(fwrite(3, 0), None);
    assert_eq!(fread(usize::MAX, 2), None);
    assert_eq!(fwrite(2, usize::MAX), None);
    assert_eq!(fread(usize::MAX, 1), Some(usize::MAX));
}

#[test]
fn transfer_replies() {
    let mut errno = ErrorChannel { errno: 0 };
    let failed = HostError { kind: HostErrorKind::NotFound, code: 66 };
    assert_eq!(fread_reply(3, Ok(()), &mut errno), 3);
    assert_eq!(fwrite_reply(5, Ok(()), &mut errno), 5);
    assert_eq!(errno.errno, 0);
    assert_eq!(fread_reply(3, Err(failed), &mut errno), 0);
    assert_eq!(errno.errno, 66);
    errno.errno = 0;
    assert_eq!(fwrite_reply(5, Err(failed), &mut errno), 0);
    assert_eq!(errno.errno, 66);
}

#[test]
fn closing_standard_error_keeps_the_handle() {
    let stderr = stderr_handle();
    assert_eq!(stderr.path, b"<stderr>".to_vec());
    assert!(stderr.standard_error);
    assert_eq!(fclose(&stderr), CloseAction::Shutdown);
    let file = CFile { path: b"/x".to_vec(), standard_error: false };
    assert_eq!(fclose(&file), CloseAction::Release);
    assert_eq!(fflush(&file), 0);
    assert_eq!(fflush(&stderr), 0);
}

#[test]
fn mkdir_request_and_reply() {
    let mut errno = ErrorChannel { errno: 0 };
    assert_eq!(mkdir(b"saves\0", &mut errno), Some(b"/saves".to_vec()));
    assert_eq!(errno.errno, 0);
    assert_eq!(mkdir(b"sa\xffves\0", &mut errno), None);
    assert_eq!(errno.errno, EOTHER);
    errno.errno = 0;
    assert_eq!(mkdir_reply(Ok(()), &mut errno), 0);
    assert_eq!(errno.errno, 0);
    let failed = HostError { kind: HostErrorKind::Other, code: 17 };
    assert_eq!(mkdir_reply(Err(failed), &mut errno), -1);
    assert_eq!(errno.errno, 17);
}

#[test]
fn fputc_writes_the_low_byte() {
    assert_eq!(fputc('A' as i32), b'A');
    assert_eq!(fputc(0x1f0 + 1), 0xf1);
    assert_eq!(fputc(-1), 0xff);
}

#[test]
fn putchar_takes_scalar_values_only() {
    assert_eq!(putchar('a' as i32), Some('a'));
    assert_eq!(putchar(0), Some('\0'));
    assert_eq!(putchar(0xd7ff), Some('\u{d7ff}'));
    assert_eq!(putchar(0xd800), None);
    assert_eq!(putchar(0xdfff), None);
    assert_eq!(putchar(0xe000), Some('\u{e000}'));
    assert_eq!(putchar(0x10ffff), Some('\u{10ffff}'));
    assert_eq!(putchar(0x110000), None);
    assert_eq!(putchar(-1), None);
    assert_eq!(putchar(i32::MIN), None);
}
