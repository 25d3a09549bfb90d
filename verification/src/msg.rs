//! The record-set message types: a field descriptor, a header of pass-through
//! metadata, and the record set itself (a row-major byte buffer in which
//! `width` records of `point_step` bytes are packed into `height` blocks of
//! `row_step` bytes, any trailing block bytes being padding).

use vstd::prelude::*;

verus! {

/// A point in time, carried through unchanged as message metadata.
#[derive(Clone, Copy, Debug, PartialEq, Eq, Structural)]
pub struct Time {
    pub sec: i32,
    pub nanosec: u32,
}

/// Message metadata that the codec passes through without interpreting.
#[derive(Clone, Debug)]
pub struct Header {
    pub stamp: Time,
    pub frame_id: String,
}

/// Mathematical model of a `Header`.
#[verifier::ext_equal]
pub ghost struct HeaderModel {
    pub stamp: Time,
    pub frame_id: Seq<char>,
}

impl View for Header {
    type V = HeaderModel;

    open spec fn view(&self) -> HeaderModel {
        HeaderModel { stamp: self.stamp, frame_id: self.frame_id@ }
    }
}

/// One field descriptor: the name, byte offset within a record, numeric type
/// tag and repeat count of one attribute.
#[derive(Clone, Debug)]
pub struct PointField {
    pub name: String,
    pub offset: u32,
    pub datatype: u8,
    pub count: u32,
}

/// Mathematical model of a `PointField`.
#[verifier::ext_equal]
pub ghost struct FieldModel {
    pub name: Seq<char>,
    pub offset: u32,
    pub datatype: u8,
    pub count: u32,
}

impl View for PointField {
    type V = FieldModel;

    open spec fn view(&self) -> FieldModel {
        FieldModel {
            name: self.name@,
            offset: self.offset,
            datatype: self.datatype,
            count: self.count,
        }
    }
}

/// A record set: a self-describing row-major buffer of binary records.
#[derive(Clone, Debug)]
pub struct PointCloud2 {
    pub header: Header,
    pub height: u32,
    pub width: u32,
    pub fields: Vec<PointField>,
    pub is_bigendian: bool,
    pub point_step: u32,
    pub row_step: u32,
    pub data: Vec<u8>,
    pub is_dense: bool,
}

/// Mathematical model of a `PointCloud2`.
#[verifier::ext_equal]
pub ghost struct CloudModel {
    pub header: HeaderModel,
    pub height: u32,
    pub width: u32,
    pub fields: Seq<FieldModel>,
    pub is_bigendian: bool,
    pub point_step: u32,
    pub row_step: u32,
    pub data: Seq<u8>,
    pub is_dense: bool,
}

impl View for PointCloud2 {
    type V = CloudModel;

    open spec fn view(&self) -> CloudModel {
        CloudModel {
            header: self.header@,
            height: self.height,
            width: self.width,
            fields: self.fields@.map_values(|f: PointField| f@),
            is_bigendian: self.is_bigendian,
            point_step: self.point_step,
            row_step: self.row_step,
            data: self.data@,
            is_dense: self.is_dense,
        }
    }
}

/// The smaller of two integers.
pub open spec fn spec_min(a: int, b: int) -> int {
    if a <= b {
        a
    } else {
        b
    }
}

/// How many chunks of size `k` a sequence of `len` bytes falls into, the
/// last chunk being allowed to run short.
pub open spec fn spec_num_chunks(len: nat, k: nat) -> int
    recommends
        k >= 1,
{
    (len + k - 1) / (k as int)
}

/// The `c`-th chunk of `s` under chunk size `k`.
pub open spec fn spec_chunk(s: Seq<u8>, k: nat, c: int) -> Seq<u8> {
    s.subrange(c * k, spec_min((c + 1) * k, s.len() as int))
}

pub proof fn lemma_num_chunks(len: nat, k: nat, c: int)
    requires
        k >= 1,
        (c == 0 && len == 0) || (c >= 1 && (c - 1) * k < len <= c * k),
    ensures
        spec_num_chunks(len, k) == c,
{
    if c == 0 {
        assert((0 + k - 1) / (k as int) == 0) by (nonlinear_arith)
            requires k >= 1;
    } else {
        let x = len + k - 1;
        let r = x - c * k;
        assert(0 <= r < k) by (nonlinear_arith)
            requires
                k >= 1,
                (c - 1) * k < len <= c * k,
                r == len + k - 1 - c * k;
        vstd::arithmetic::div_mod::lemma_fundamental_div_mod_converse(x, k as int, c, r);
    }
}

/// Splits `data` into chunks of `k` bytes; the last chunk keeps whatever
/// remains when `k` does not divide the length evenly.
#[verifier::loop_isolation(false)]
pub fn chunk_bytes(data: &Vec<u8>, k: usize) -> (out: Vec<Vec<u8>>)
    requires
        k >= 1,
    ensures
        out@.len() == spec_num_chunks(data@.len(), k as nat),
        forall|c: int|
            0 <= c < out@.len() ==> #[trigger] out@[c]@ == spec_chunk(data@, k as nat, c),
{
    let len: usize = data.len();
    let mut out: Vec<Vec<u8>> = Vec::new();
    let mut i: usize = 0;
    proof {
        assert(out@.len() * k == 0) by (nonlinear_arith)
            requires out@.len() == 0;
    }
    while i < len
        invariant
            i == spec_min(out@.len() * k, len as int),
            i < len ==> i == out@.len() * k,
            out@.len() >= 1 ==> (out@.len() - 1) * k < i,
            forall|c: int|
                0 <= c < out@.len() ==> #[trigger] out@[c]@ == spec_chunk(data@, k as nat, c),
        decreases len - i,
    {
        let end: usize = if k <= len - i {
            i + k
        } else {
            len
        };
        let mut chunk: Vec<u8> = Vec::new();
        let mut j: usize = i;
        while j < end
            invariant
                i <= j <= end,
                chunk@ == data@.subrange(i as int, j as int),
            decreases end - j,
        {
            proof {
                assert(chunk@.push(data@[j as int]) =~= data@.subrange(i as int, j + 1));
            }
            chunk.push(data[j]);
            j = j + 1;
        }
        proof {
            let c = out@.len() as int;
            assert(end == spec_min((c + 1) * k, len as int)) by (nonlinear_arith)
                requires
                    k >= 1,
                    i == c * k,
                    i < len,
                    end == spec_min((i + k) as int, len as int),
                    c >= 0;
            assert(chunk@ == spec_chunk(data@, k as nat, c));
            assert((c + 1) * k == c * k + k) by (nonlinear_arith);
        }
        out.push(chunk);
        i = end;
    }
    proof {
        let c = out@.len() as int;
        if len == 0 {
            lemma_num_chunks(data@.len(), k as nat, 0);
        } else {
            if c == 0 {
                assert(c * k == 0) by (nonlinear_arith)
                    requires c == 0;
            }
            assert(c >= 1);
            assert(len <= c * k);
            assert((c - 1) * k < len);
            lemma_num_chunks(data@.len(), k as nat, c);
        }
    }
    out
}

/// Views of a record set that carve its byte buffer into blocks, and blocks
/// into per-record spans, as the buffer's strides describe.
pub trait PointCloud2Ext {
    /// The model of the record set being carved up.
    spec fn cloud(&self) -> CloudModel;

    /// The buffer split into blocks of `row_step` bytes.
    fn row_bytes_iter(&self) -> (rows: Vec<Vec<u8>>)
        requires
            self.cloud().row_step >= 1,
        ensures
            rows@.len() == spec_num_chunks(self.cloud().data.len(), self.cloud().row_step as nat),
            forall|c: int|
                0 <= c < rows@.len() ==> #[trigger] rows@[c]@ == spec_chunk(
                    self.cloud().data,
                    self.cloud().row_step as nat,
                    c,
                ),
    ;

    /// Each block split further into records of `point_step` bytes.
    fn point_bytes_iter(&self) -> (points: Vec<Vec<Vec<u8>>>)
        requires
            self.cloud().row_step >= 1,
            self.cloud().point_step >= 1,
        ensures
            points@.len() == spec_num_chunks(
                self.cloud().data.len(),
                self.cloud().row_step as nat,
            ),
            forall|c: int|
                0 <= c < points@.len() ==> #[trigger] points@[c]@.len() == spec_num_chunks(
                    spec_chunk(self.cloud().data, self.cloud().row_step as nat, c).len(),
                    self.cloud().point_step as nat,
                ),
            forall|c: int, d: int|
                0 <= c < points@.len() && 0 <= d < #[trigger] points@[c]@.len()
                    ==> #[trigger] points@[c]@[d]@ == spec_chunk(
                    spec_chunk(self.cloud().data, self.cloud().row_step as nat, c),
                    self.cloud().point_step as nat,
                    d,
                ),
    ;
}

impl PointCloud2Ext for PointCloud2 {
    open spec fn cloud(&self) -> CloudModel {
        self@
    }

    fn row_bytes_iter(&self) -> (rows: Vec<Vec<u8>>) {
        chunk_bytes(&self.data, self.row_step as usize)
    }

    #[verifier::loop_isolation(false)]
    fn point_bytes_iter(&self) -> (points: Vec<Vec<Vec<u8>>>) {
        let rows = self.row_bytes_iter();
        let mut points: Vec<Vec<Vec<u8>>> = Vec::new();
        let mut c: usize = 0;
        while c < rows.len()
            invariant
                c <= rows@.len(),
                points@.len() == c,
                forall|e: int|
                    0 <= e < c ==> #[trigger] points@[e]@.len() == spec_num_chunks(
                        spec_chunk(self@.data, self@.row_step as nat, e).len(),
                        self@.point_step as nat,
                    ),
                forall|e: int, d: int|
                    0 <= e < c && 0 <= d < #[trigger] points@[e]@.len()
                        ==> #[trigger] points@[e]@[d]@ == spec_chunk(
                        spec_chunk(self@.data, self@.row_step as nat, e),
                        self@.point_step as nat,
                        d,
                    ),
            decreases rows@.len() - c,
        {
            let row_points = chunk_bytes(&rows[c], self.point_step as usize);
            points.push(row_points);
            c = c + 1;
        }
        points
    }
}

} // verus!
