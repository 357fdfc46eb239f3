//! The 16-bit samples held in the `data` chunks of a stream.
use crate::bytes::{le_i16, read_i16_le};
use crate::chunk::{Chunk, ChunkData, ChunkDataModel, ChunkModel};
use crate::riff::RiffChunk;
use vstd::prelude::*;

verus! {

/// The little-endian 16-bit samples held in `b`, two bytes each; a last odd byte is
/// left out.
pub open spec fn spec_samples(b: Seq<u8>) -> Seq<i16> {
    Seq::new(b.len() / 2, |k: int| le_i16(b, 2 * k))
}

/// For each `data` chunk among `cs`, in order, its declared size and its samples.
pub open spec fn data_series(cs: Seq<ChunkModel>) -> Seq<(u32, Seq<i16>)>
    decreases cs.len(),
{
    if cs.len() == 0 {
        seq![]
    } else {
        let before = data_series(cs.drop_last());
        match cs.last().data {
            ChunkDataModel::Data(b) => before.push((cs.last().size, spec_samples(b))),
            _ => before,
        }
    }
}

/// A size paired with a sample vector, the vector replaced by its contents.
pub open spec fn series_entry(p: (u32, Vec<i16>)) -> (u32, Seq<i16>) {
    (p.0, p.1@)
}

/// Reads the little-endian 16-bit samples in `data`, two bytes each; a last odd byte is
/// left out.
pub fn pcm16_samples(data: &[u8]) -> (res: Vec<i16>)
    ensures
        res@ == spec_samples(data@),
{
    let n: usize = data.len() / 2;
    let mut res: Vec<i16> = Vec::new();
    let mut k: usize = 0;
    while k < n
        invariant
            n == data@.len() / 2,
            k <= n,
            res@ =~= spec_samples(data@).take(k as int),
        decreases n - k,
    {
        assert(2 * k + 2 <= data.len()) by (nonlinear_arith)
            requires
                k < n,
                n == data.len() / 2,
        ;
        let s: i16 = read_i16_le(data, 2 * k);
        res.push(s);
        k = k + 1;
    }
    res
}

impl RiffChunk {
    /// For each `data` chunk of the stream, in order, its declared size and its samples.
    pub fn data_samples(&self) -> (res: Vec<(u32, Vec<i16>)>)
        ensures
            res@.map_values(|p: (u32, Vec<i16>)| series_entry(p)) == data_series(self@.data),
    {
        let mut res: Vec<(u32, Vec<i16>)> = Vec::new();
        let mut i: usize = 0;
        let ghost models = self@.data;
        assert(models =~= self.data@.map_values(|c: Chunk| c@));
        while i < self.data.len()
            invariant
                models == self.data@.map_values(|c: Chunk| c@),
                i <= self.data@.len(),
                res@.map_values(|p: (u32, Vec<i16>)| series_entry(p)) == data_series(
                    models.take(i as int),
                ),
            decreases self.data@.len() - i,
        {
            let chunk = &self.data[i];
            let ghost before = res@.map_values(|p: (u32, Vec<i16>)| series_entry(p));
            assert(models.take(i + 1).drop_last() =~= models.take(i as int));
            assert(models.take(i + 1).last() == chunk@);
            match &chunk.data {
                ChunkData::Data(bytes) => {
                    let samples = pcm16_samples(bytes.as_slice());
                    res.push((chunk.size, samples));
                    assert(res@.map_values(|p: (u32, Vec<i16>)| series_entry(p)) =~= before.push(
                        (chunk.size, spec_samples(bytes@)),
                    ));
                },
                _ => {},
            }
            i = i + 1;
        }
        assert(models.take(self.data@.len() as int) =~= models);
        res
    }
}

} // verus!
