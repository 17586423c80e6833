//! Decisions made while extracting files from a UDF volume.
//!
//! A UDF filesystem driver performs the actual disc access (opening the
//! volume, resolving the root, looking a path up, reading blocks).  The
//! caller performs those driver calls and hands their results to this
//! module as plain values; everything that is decided about those
//! results — null-handle checks, the unknown-length sentinel, how many
//! blocks a read must request, and whether a read transferred exactly
//! the right number of bytes — is verified here.

use vstd::prelude::*;

verus! {

/// Size in bytes of one block of a UDF volume; reads are requested in
/// whole blocks.
pub const UDF_BLOCKSIZE: u64 = 2048;

/// Sentinel value with which the driver reports that an entry's length
/// is unknown.
pub const UDF_LENGTH_UNKNOWN: u64 = 0x7fffffff;

/// Opaque filesystem failure: the driver reports no detail beyond the
/// fact of the failure.
#[derive(Debug, Clone, Copy, Default, PartialEq, Eq, Structural)]
pub struct UdfError;

/// What the driver reports of a directory entry it resolved: the
/// on-disk name and the raw (possibly sentinel) byte length.
pub struct DirentReply {
    pub name: Vec<u8>,
    pub reported_length: u64,
}

/// An open UDF volume session.  The driver calls that open and close
/// the session are the caller's; a session value exists only where the
/// driver produced a handle.
pub struct Udf {}

/// A resolved file-system node of the volume, as the driver reported
/// it: its name and its raw byte length.
pub struct UdfDirent {
    pub name: Vec<u8>,
    pub reported_length: u64,
}

/// Number of whole blocks that a read of `len` bytes must request:
/// `len / UDF_BLOCKSIZE`, rounded up.
pub open spec fn spec_block_count(len: u64) -> int {
    (len + UDF_BLOCKSIZE - 1) / (UDF_BLOCKSIZE as int)
}

/// What a whole-file read yields, given the raw length the driver
/// reported for the entry, the buffer the driver filled, and the byte
/// count the driver claims to have transferred.  The read succeeds only
/// if the length is known, the driver transferred exactly that many
/// bytes, and the buffer holds them; the blob is the first
/// `reported_length` bytes of the buffer.
pub open spec fn spec_read(reported_length: u64, data: Seq<u8>, transferred: int) -> Result<
    Seq<u8>,
    UdfError,
> {
    if reported_length == UDF_LENGTH_UNKNOWN {
        Err(UdfError)
    } else if transferred != reported_length {
        Err(UdfError)
    } else if data.len() < reported_length {
        Err(UdfError)
    } else {
        Ok(data.subrange(0, reported_length as int))
    }
}

impl Udf {
    /// Decision on the driver's volume-open result: a missing handle
    /// means the volume could not be recognized as UDF.
    pub fn open(opened: bool) -> (r: Result<Udf, UdfError>)
        ensures
            r is Ok <==> opened,
    {
        if opened {
            Ok(Udf {})
        } else {
            Err(UdfError)
        }
    }

    /// The arguments a root-resolution driver call takes: whether the
    /// driver is to auto-select the default partition, and the
    /// partition number where the caller names one.
    pub fn root_request(&self, partition: Option<u16>) -> (r: (bool, u16))
        ensures
            r.0 <==> partition is None,
            r.1 == (if partition is Some {
                partition->0
            } else {
                0u16
            }),
    {
        match partition {
            None => (true, 0),
            Some(p) => (false, p),
        }
    }

    /// Decision on the driver's root-resolution result: a missing
    /// handle means no root directory could be resolved.
    pub fn root_directory(&self, reply: Option<DirentReply>) -> (r: Result<UdfDirent, UdfError>)
        ensures
            r is Ok <==> reply is Some,
            r matches Ok(e) ==> reply matches Some(d) && e.name@ == d.name@
                && e.reported_length == d.reported_length,
    {
        match reply {
            Some(d) => Ok(UdfDirent { name: d.name, reported_length: d.reported_length }),
            None => Err(UdfError),
        }
    }
}

impl UdfDirent {
    /// The entry's filename as stored on disk; no encoding is assumed.
    pub fn filename(&self) -> (r: &Vec<u8>)
        ensures
            r@ == self.name@,
    {
        &self.name
    }

    /// Byte length of the entry's content; fails exactly when the
    /// driver reported the unknown-length sentinel.
    pub fn length(&self) -> (r: Result<u64, UdfError>)
        ensures
            r is Ok <==> self.reported_length != UDF_LENGTH_UNKNOWN,
            r matches Ok(l) ==> l == self.reported_length,
    {
        if self.reported_length == UDF_LENGTH_UNKNOWN {
            Err(UdfError)
        } else {
            Ok(self.reported_length)
        }
    }

    /// Decision on the driver's path-lookup result: a missing handle
    /// means the path does not exist under this entry.
    pub fn open_file(&self, reply: Option<DirentReply>) -> (r: Result<UdfDirent, UdfError>)
        ensures
            r is Ok <==> reply is Some,
            r matches Ok(e) ==> reply matches Some(d) && e.name@ == d.name@
                && e.reported_length == d.reported_length,
    {
        match reply {
            Some(d) => Ok(UdfDirent { name: d.name, reported_length: d.reported_length }),
            None => Err(UdfError),
        }
    }

    /// Number of whole blocks a read of this entry must request from
    /// the driver; fails exactly when the length is unknown.
    pub fn blocks_to_read(&self) -> (r: Result<u64, UdfError>)
        ensures
            r is Ok <==> self.reported_length != UDF_LENGTH_UNKNOWN,
            r matches Ok(b) ==> b == spec_block_count(self.reported_length),
    {
        let len = match self.length() {
            Ok(l) => l,
            Err(e) => {
                return Err(e);
            },
        };
        let q = len / UDF_BLOCKSIZE;
        let blocks = if len % UDF_BLOCKSIZE == 0 {
            q
        } else {
            q + 1
        };
        proof {
            lemma_block_count_from_div_mod(len);
        }
        Ok(blocks)
    }

    /// Outcome of reading this entry, given the buffer the driver
    /// filled and the transferred-byte count it returned: succeeds only
    /// on an exact transfer, and yields exactly the entry's bytes.
    ///
    /// The driver's own read primitive keeps an implicit shared cursor,
    /// which the caller must reset (a degenerate relative open, expected
    /// to fail) before the block read whose results are judged here;
    /// this interface itself is stateless.
    pub fn read(&self, data: Vec<u8>, transferred: isize) -> (r: Result<Vec<u8>, UdfError>)
        ensures
            r is Ok <==> spec_read(self.reported_length, data@, transferred as int) is Ok,
            r matches Ok(b) ==> spec_read(self.reported_length, data@, transferred as int)
                matches Ok(s) && b@ == s,
    {
        let len = match self.length() {
            Ok(l) => l,
            Err(e) => {
                return Err(e);
            },
        };
        if transferred < 0 || transferred as u64 != len {
            return Err(UdfError);
        }
        if (data.len() as u64) < len {
            return Err(UdfError);
        }
        let mut blob = data;
        blob.truncate(len as usize);
        Ok(blob)
    }
}

/// For one of the two well-known files, the results of the driver calls
/// that its extraction performs: the path lookup, and the block read.
pub struct FileReply {
    pub entry: Option<DirentReply>,
    pub data: Vec<u8>,
    pub transferred: isize,
}

/// What the extraction of one file yields from the driver's replies.
pub open spec fn spec_file_read(f: FileReply) -> Result<Seq<u8>, UdfError> {
    match f.entry {
        None => Err(UdfError),
        Some(d) => spec_read(d.reported_length, f.data@, f.transferred as int),
    }
}

/// What a whole extraction yields: both blobs, or the first failure.
pub open spec fn spec_grab_blobs(
    volume_opened: bool,
    root: Option<DirentReply>,
    cdboot: FileReply,
    cdboot_noprompt: FileReply,
) -> Result<(Seq<u8>, Seq<u8>), UdfError> {
    if !volume_opened {
        Err(UdfError)
    } else if root is None {
        Err(UdfError)
    } else {
        match (spec_file_read(cdboot), spec_file_read(cdboot_noprompt)) {
            (Ok(a), Ok(b)) => Ok((a, b)),
            _ => Err(UdfError),
        }
    }
}

/// Extracts the two boot-loader blobs from the driver's replies: the
/// volume-open result, the root resolution, and for each of the two
/// well-known paths the lookup and read results.  All-or-nothing: any
/// failed step fails the whole extraction.  Each returned blob is
/// exactly as long as the driver reported the entry to be.
pub fn grab_blobs(
    volume_opened: bool,
    root: Option<DirentReply>,
    cdboot: FileReply,
    cdboot_noprompt: FileReply,
) -> (r: Result<(Vec<u8>, Vec<u8>), UdfError>)
    ensures
        r is Ok <==> spec_grab_blobs(volume_opened, root, cdboot, cdboot_noprompt) is Ok,
        r matches Ok(p) ==> spec_grab_blobs(volume_opened, root, cdboot, cdboot_noprompt)
            matches Ok(q) && p.0@ == q.0 && p.1@ == q.1,
        r matches Ok(p) ==> cdboot.entry matches Some(d) && p.0@.len() == d.reported_length,
        r matches Ok(p) ==> cdboot_noprompt.entry matches Some(d) && p.1@.len()
            == d.reported_length,
{
    let udf = match Udf::open(volume_opened) {
        Ok(u) => u,
        Err(e) => {
            return Err(e);
        },
    };
    let root_entry = match udf.root_directory(root) {
        Ok(d) => d,
        Err(e) => {
            return Err(e);
        },
    };
    let cdboot_entry = match root_entry.open_file(cdboot.entry) {
        Ok(d) => d,
        Err(e) => {
            return Err(e);
        },
    };
    let blob_cdboot = match cdboot_entry.read(cdboot.data, cdboot.transferred) {
        Ok(b) => b,
        Err(e) => {
            return Err(e);
        },
    };
    let noprompt_entry = match root_entry.open_file(cdboot_noprompt.entry) {
        Ok(d) => d,
        Err(e) => {
            return Err(e);
        },
    };
    let blob_noprompt = match noprompt_entry.read(
        cdboot_noprompt.data,
        cdboot_noprompt.transferred,
    ) {
        Ok(b) => b,
        Err(e) => {
            return Err(e);
        },
    };
    Ok((blob_cdboot, blob_noprompt))
}

/// The rounded-up block count computed by division and remainder equals
/// the ceiling formula.
proof fn lemma_block_count_from_div_mod(len: u64)
    ensures
        len % UDF_BLOCKSIZE == 0 ==> len / UDF_BLOCKSIZE == spec_block_count(len),
        len % UDF_BLOCKSIZE != 0 ==> len / UDF_BLOCKSIZE + 1 == spec_block_count(len),
{
    let bs = UDF_BLOCKSIZE as int;
    let q = len as int / bs;
    let r = len as int % bs;
    vstd::arithmetic::div_mod::lemma_fundamental_div_mod(len as int, bs);
    vstd::arithmetic::div_mod::lemma_fundamental_div_mod_converse(
        len as int + bs - 1,
        bs,
        q + if r == 0 { 0int } else { 1int },
        if r == 0 { bs - 1 } else { r - 1 },
    );
}

} // verus!
