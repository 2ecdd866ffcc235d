//! The chunk dataset: six parallel columns filled from the records that carry text.
use vstd::prelude::*;

use crate::split::ChunkMetadata;
use crate::text::is_blank;

verus! {

/// The columns `file_path`, `file_name`, `start_line`, `end_line`, `text` and `size`, in
/// that order; row `i` of each belongs to the same chunk.
pub struct ChunkColumns {
    pub file_paths: Vec<String>,
    pub file_names: Vec<String>,
    pub start_lines: Vec<u64>,
    pub end_lines: Vec<u64>,
    pub texts: Vec<String>,
    pub sizes: Vec<u64>,
}

/// The records of `cs` that carry text, in order.
pub open spec fn kept(cs: Seq<ChunkMetadata>) -> Seq<ChunkMetadata>
    decreases cs.len(),
{
    if cs.len() == 0 {
        Seq::<ChunkMetadata>::empty()
    } else if cs.last().text is Some {
        kept(cs.drop_last()).push(cs.last())
    } else {
        kept(cs.drop_last())
    }
}

proof fn lemma_kept_from(cs: Seq<ChunkMetadata>)
    ensures
        forall|i: int|
            0 <= i < kept(cs).len() ==> (#[trigger] kept(cs)[i]).text is Some && exists|j: int|
                0 <= j < cs.len() && cs[j] == kept(cs)[i],
    decreases cs.len(),
{
    if cs.len() > 0 {
        let prev = cs.drop_last();
        lemma_kept_from(prev);
        assert forall|i: int| 0 <= i < kept(cs).len() implies (#[trigger] kept(cs)[i]).text is Some
            && exists|j: int| 0 <= j < cs.len() && cs[j] == kept(cs)[i] by {
            if i < kept(prev).len() {
                assert(kept(cs)[i] == kept(prev)[i]);
                let j = choose|j: int| 0 <= j < prev.len() && prev[j] == kept(prev)[i];
                assert(cs[j] == prev[j]);
            } else {
                assert(cs[cs.len() - 1] == kept(cs)[i]);
            }
        }
    }
}

/// A dataset assembled from records whose texts are never blank has no row whose text is
/// blank, nor one whose text is empty.
pub proof fn lemma_no_blank_rows(cols: ChunkColumns, chunks: Seq<ChunkMetadata>)
    requires
        cols.holds(kept(chunks)),
        forall|j: int|
            0 <= j < chunks.len() && (#[trigger] chunks[j]).text is Some ==> !is_blank(
                chunks[j].text->Some_0@,
            ),
    ensures
        forall|i: int|
            0 <= i < cols.texts@.len() ==> !is_blank(#[trigger] cols.texts@[i]@) && cols.texts@[i]@.len()
                > 0,
{
    lemma_kept_from(chunks);
    assert forall|i: int| 0 <= i < cols.texts@.len() implies !is_blank(
        #[trigger] cols.texts@[i]@,
    ) && cols.texts@[i]@.len() > 0 by {
        let j = choose|j: int| 0 <= j < chunks.len() && chunks[j] == kept(chunks)[i];
        assert(chunks[j].text is Some);
    }
}

impl ChunkColumns {
    /// Row `i` of the columns is record `rows[i]`, for every row.
    pub open spec fn holds(&self, rows: Seq<ChunkMetadata>) -> bool {
        &&& self.file_paths@.len() == rows.len()
        &&& self.file_names@.len() == rows.len()
        &&& self.start_lines@.len() == rows.len()
        &&& self.end_lines@.len() == rows.len()
        &&& self.texts@.len() == rows.len()
        &&& self.sizes@.len() == rows.len()
        &&& forall|i: int|
            0 <= i < rows.len() ==> {
                &&& #[trigger] rows[i].text is Some
                &&& self.file_paths@[i]@ == rows[i].file_path@
                &&& self.file_names@[i]@ == rows[i].file_name@
                &&& self.start_lines@[i] == rows[i].start_line
                &&& self.end_lines@[i] == rows[i].end_line
                &&& self.texts@[i]@ == rows[i].text->Some_0@
                &&& self.sizes@[i] == rows[i].size
            }
    }

    /// No row's text is blank (so none is empty either).
    pub open spec fn texts_not_blank(&self) -> bool {
        forall|i: int| 0 <= i < self.texts@.len() ==> !is_blank(#[trigger] self.texts@[i]@)
    }

    /// Columns with no rows.
    pub fn new() -> (r: ChunkColumns)
        ensures
            r.holds(Seq::<ChunkMetadata>::empty()),
            r.texts_not_blank(),
    {
        ChunkColumns {
            file_paths: Vec::new(),
            file_names: Vec::new(),
            start_lines: Vec::new(),
            end_lines: Vec::new(),
            texts: Vec::new(),
            sizes: Vec::new(),
        }
    }

    /// The number of rows.
    pub fn len(&self) -> (r: usize)
        ensures
            r == self.texts@.len(),
    {
        self.texts.len()
    }

    /// Adds `chunk` as the last row if it carries text, and drops it otherwise; the result
    /// says which.
    pub fn add(&mut self, chunk: ChunkMetadata) -> (r: bool)
        ensures
            r == chunk.text is Some,
            old(self).texts_not_blank() && (chunk.text is Some ==> !is_blank(
                chunk.text->Some_0@,
            )) ==> final(self).texts_not_blank(),
            forall|rows: Seq<ChunkMetadata>|
                #[trigger] old(self).holds(rows) ==> if r {
                    final(self).holds(rows.push(chunk))
                } else {
                    final(self).holds(rows)
                },
    {
        match chunk.text {
            Some(text) => {
                self.file_paths.push(chunk.file_path);
                self.file_names.push(chunk.file_name);
                self.start_lines.push(chunk.start_line);
                self.end_lines.push(chunk.end_line);
                self.texts.push(text);
                self.sizes.push(chunk.size);
                true
            },
            None => false,
        }
    }
}

/// The dataset of `chunks`: one row for each record that carries text, in order.
pub fn assemble(chunks: Vec<ChunkMetadata>) -> (r: ChunkColumns)
    ensures
        r.holds(kept(chunks@)),
{
    let mut r = ChunkColumns::new();
    let ghost all = chunks@;
    let ghost mut seen: int = 0;
    for c in it: chunks.into_iter()
        invariant
            it.seq() == all,
            seen == it.index(),
            r.holds(kept(all.take(seen))),
    {
        assert(all.take(seen + 1).drop_last() == all.take(seen));
        assert(all.take(seen + 1).last() == c);
        r.add(c);
        proof {
            seen = seen + 1;
        }
    }
    assert(all.take(seen) == all);
    r
}

} // verus!
