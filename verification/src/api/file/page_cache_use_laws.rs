//! What a program may rely on when it writes to a file and reads it later: whatever
//! is done with this and other files meanwhile, it finds what it wrote, as long as
//! nothing was written in the same place.
use vstd::prelude::*;

use crate::api::file::io::FileId;
use crate::api::file::page::in_file_range;
use crate::api::file::page_cache::{
    cache_acquired, gap_stepped, map_key, noted, readable, store, store_noted, unmap_key, CachePage,
    CacheView, GapOp, Progress,
};
use crate::api::file::page_cache_laws::{
    background_step, contents, cut_disk, holds_range, is_page, law_background_keeps_contents,
    law_cut_keeps_the_file, law_mapped_stores_change_the_file, law_mapping_keeps_contents,
    law_read_after_write, law_read_returns_the_file, law_unmapping_keeps_contents,
    law_write_changes_what_it_writes, law_zeroed_range_reads_zero, lemma_contents_of_page,
    live_on_disk, mapped_stores, read_step, same_contents, sound, with_range, without_tail, write_step,
    Disk, Live, Moment, ReadMoment,
};
use crate::api::file::page_pool::{PageKey, PoolState};
use crate::api::file::page_tables::VirtPage;

verus! {

/// The bytes `lo` to before `hi` of a file.
pub open spec fn span(file: FileId, lo: int, hi: int) -> Live {
    with_range(Set::empty(), file, lo, hi)
}

/// A moment in the use of files: the state of things, and the size of the file that a
/// program cares for, as the cache has it.
pub struct UseMoment {
    pub state: PoolState,
    pub disk: Disk,
    pub size: int,
}

/// Whether the bytes `from` to before `to` of `data` are written to a file at `offset`,
/// none of them to the bytes `lo` to before `hi` of `file`.
pub open spec fn writes_elsewhere(
    file: FileId,
    lo: int,
    hi: int,
    a: UseMoment,
    b: UseMoment,
    cache: CacheView,
    offset: int,
    data: Seq<u8>,
    from: int,
    to: int,
) -> bool {
    &&& a.state.pool.io is None
    &&& cache.coherent(a.state.pool)
    &&& 0 <= offset
    &&& 0 <= from <= to <= data.len()
    &&& offset + to <= usize::MAX
    &&& holds_range(a.state.pool, cache, offset, from, to)
    &&& cache.file == file ==> offset + to <= lo || hi <= offset + from
    &&& b.disk == a.disk
    &&& b.state.tables == a.state.tables
    &&& b.state.pool == store(a.state.pool, cache.file, offset, data, from, to)
    &&& if cache.file == file {
        a.size == cache.size && b.size == store_noted(cache, offset, from, to).size
    } else {
        b.size == a.size
    }
}

/// Whether the filling of a gap makes a step, in any file.
pub open spec fn fills_a_gap(
    file: FileId,
    a: UseMoment,
    b: UseMoment,
    cache: CacheView,
    op: GapOp,
    cache_after: CacheView,
    op_after: GapOp,
    r: Progress,
) -> bool {
    &&& a.state.pool.io is None
    &&& a.state.pool.next_key < isize::MAX
    &&& cache.coherent(a.state.pool)
    &&& op.wf()
    &&& b.disk == a.disk
    &&& gap_stepped(cache, a.state, op, cache_after, b.state, op_after, r)
    &&& if cache.file == file {
        a.size == cache.size && b.size == cache_after.size
    } else {
        b.size == a.size
    }
}

/// Whether a virtual page begins to map a clean page of the pool, or maps it no more.
pub open spec fn maps_a_page(
    s: PoolState,
    after: PoolState,
    key: PageKey,
    page: VirtPage,
) -> bool {
    &&& s.pool.pages.contains_key(key)
    &&& !s.pool.pages[key].is_dirty(s.tables)
    &&& {
        ||| after == unmap_key(s, key, page)
        ||| after == map_key(s, key, page) && forall|k: PageKey| #[trigger]
            s.pool.pages.contains_key(k) && k != key ==> !s.pool.pages[k].virt_pages.contains(page)
    }
}

/// Whether user code stores to mapped pages, but not to the bytes `lo` to before `hi` of
/// `file`.
pub open spec fn stores_elsewhere(
    file: FileId,
    lo: int,
    hi: int,
    s: PoolState,
    after: PoolState,
) -> bool {
    &&& mapped_stores(s, after)
    &&& forall|k: PageKey, j: int|
        {
            &&& s.pool.pages.contains_key(k)
            &&& s.pool.pages[k].file == Some(file)
            &&& 0 <= j < 4096
            &&& lo <= s.pool.pages[k].page_id * 4096 + j < hi
        } ==> #[trigger] after.pool.pages[k].bytes[j] == s.pool.pages[k].bytes[j]
}

/// One moment after another in the use of files, as long as nobody writes to the bytes
/// `lo` to before `hi` of `file` or cuts them off: something goes on in the background
/// of reads, writes and syncs of any file, something else is written, a gap is filled, a
/// page is mapped or unmapped, user code stores to mapped pages, a file is made shorter,
/// or a file on disk is cut to its size.
pub open spec fn use_step(file: FileId, lo: int, hi: int, a: UseMoment, b: UseMoment) -> bool {
    ||| b.size == a.size && background_step(a.state, a.disk, b.state, b.disk)
    ||| exists|cache: CacheView, offset: int, data: Seq<u8>, from: int, to: int| #[trigger]
        writes_elsewhere(file, lo, hi, a, b, cache, offset, data, from, to)
    ||| exists|cache: CacheView, op: GapOp, cache_after: CacheView, op_after: GapOp, r: Progress|
        #[trigger] fills_a_gap(file, a, b, cache, op, cache_after, op_after, r)
    ||| {
        &&& a.state.pool.io is None
        &&& b.disk == a.disk
        &&& b.size == a.size
        &&& exists|key: PageKey, page: VirtPage| #[trigger]
            maps_a_page(a.state, b.state, key, page)
    }
    ||| {
        &&& a.state.pool.io is None
        &&& b.disk == a.disk
        &&& b.size == a.size
        &&& stores_elsewhere(file, lo, hi, a.state, b.state)
    }
    ||| b.state == a.state && b.disk == a.disk && hi <= b.size <= a.size
    ||| {
        &&& a.state.pool.io is None
        &&& b.state == a.state
        &&& b.size == a.size
        &&& exists|f: FileId, size: int|
            {
                &&& 0 <= size <= a.disk[f].data.len()
                &&& f == file ==> size == a.size
                &&& b.disk == #[trigger] cut_disk(a.disk, f, size)
            }
    }
}

/// What is sound stays so when fewer bytes count.
proof fn lemma_fewer_count(s: PoolState, disk: Disk, live: Live, less: Live)
    requires
        sound(s, disk, live),
        less.subset_of(live),
    ensures
        sound(s, disk, less),
{
    assert forall|k: PageKey| #[trigger]
        s.pool.pages.contains_key(k) && live_on_disk(
            s.pool.pages[k],
            disk,
            live,
        ) implies live_on_disk(s.pool.pages[k], disk, less) by {}
}

/// A write elsewhere changes none of the bytes.
proof fn lemma_write_elsewhere(
    file: FileId,
    lo: int,
    hi: int,
    a: UseMoment,
    b: UseMoment,
    cache: CacheView,
    offset: int,
    data: Seq<u8>,
    from: int,
    to: int,
)
    requires
        sound(a.state, a.disk, span(file, lo, hi)),
        a.size >= hi,
        writes_elsewhere(file, lo, hi, a, b, cache, offset, data, from, to),
    ensures
        sound(b.state, b.disk, span(file, lo, hi)),
        same_contents(a.state.pool, a.disk, b.state.pool, b.disk, span(file, lo, hi)),
        b.size >= hi,
{
    let live = span(file, lo, hi);
    law_write_changes_what_it_writes(a.state, a.disk, live, cache, offset, data, from, to);
    let more = with_range(live, cache.file, offset + from, offset + to);
    assert(b.state == (PoolState { pool: b.state.pool, ..a.state }));
    lemma_fewer_count(b.state, b.disk, more, live);
}

/// To fill a gap changes none of the bytes: the zeros come behind the end of the file.
proof fn lemma_gap_elsewhere(
    file: FileId,
    lo: int,
    hi: int,
    a: UseMoment,
    b: UseMoment,
    cache: CacheView,
    op: GapOp,
    cache_after: CacheView,
    op_after: GapOp,
    r: Progress,
)
    requires
        0 <= lo,
        sound(a.state, a.disk, span(file, lo, hi)),
        a.size >= hi,
        fills_a_gap(file, a, b, cache, op, cache_after, op_after, r),
    ensures
        sound(b.state, b.disk, span(file, lo, hi)),
        same_contents(a.state.pool, a.disk, b.state.pool, b.disk, span(file, lo, hi)),
        b.size >= hi,
{
    let live = span(file, lo, hi);
    let next = op.next;
    if op.is_done() || op.flushing {
    } else if !cache.holds(a.state.pool, next) {
        let page = choose|page: CachePage|
            {
                &&& !(page is Ready)
                &&& r == Progress::of_page(page)
                &&& #[trigger] cache_acquired(
                    noted(cache, next),
                    a.state,
                    next,
                    cache_after,
                    b.state,
                    page,
                )
            };
        assert(noted(cache, next).coherent(a.state.pool));
        assert(in_file_range(next));
        assert(background_step(a.state, a.disk, b.state, b.disk));
        law_background_keeps_contents(a.state, a.disk, live, b.state, b.disk);
    } else if op.gap_start(cache.size) < op.gap_end() {
        let key = cache.pages[next];
        let from = op.gap_start(cache.size);
        let to = op.gap_end();
        assert(is_page(a.state.pool.pages[key], cache.file, next as int));
        law_zeroed_range_reads_zero(a.state, a.disk, live, key, from, to);
        let more = with_range(live, cache.file, next * 4096 + from, next * 4096 + to);
        lemma_fewer_count(b.state, b.disk, more, live);
        assert forall|f: FileId, pos: int|
            pos >= 0 && live.contains((f, pos)) implies #[trigger] contents(
            b.state.pool,
            b.disk,
            f,
            pos,
        ) == contents(a.state.pool, a.disk, f, pos) by {
            if f == cache.file && pos / 4096 == next {
                assert(pos == next * 4096 + pos % 4096);
            }
        }
    }
}

/// Stores through mappings elsewhere change none of the bytes.
proof fn lemma_stores_elsewhere(
    file: FileId,
    lo: int,
    hi: int,
    s: PoolState,
    disk: Disk,
    after: PoolState,
)
    requires
        0 <= lo,
        sound(s, disk, span(file, lo, hi)),
        s.pool.io is None,
        stores_elsewhere(file, lo, hi, s, after),
    ensures
        sound(after, disk, span(file, lo, hi)),
        same_contents(s.pool, disk, after.pool, disk, span(file, lo, hi)),
{
    let live = span(file, lo, hi);
    law_mapped_stores_change_the_file(s, disk, live, after);
    assert forall|f: FileId, pos: int| pos >= 0 && live.contains((f, pos)) implies #[trigger] contents(
        after.pool,
        disk,
        f,
        pos,
    ) == contents(s.pool, disk, f, pos) by {
        let id = pos / 4096;
        let j = pos % 4096;
        if exists|k: PageKey| #[trigger]
            s.pool.pages.contains_key(k) && is_page(s.pool.pages[k], f, id) {
            let k = choose|k: PageKey| #[trigger]
                s.pool.pages.contains_key(k) && is_page(s.pool.pages[k], f, id);
            lemma_contents_of_page(s.pool, disk, f, pos, k);
            assert(s.pool.pages[k].page_id * 4096 + j == pos);
            assert(after.pool.pages[k].bytes[j] == s.pool.pages[k].bytes[j]);
        }
    }
}

/// A step in the use of files changes none of the bytes.
proof fn lemma_use_step(file: FileId, lo: int, hi: int, a: UseMoment, b: UseMoment)
    requires
        0 <= lo,
        sound(a.state, a.disk, span(file, lo, hi)),
        a.size >= hi,
        use_step(file, lo, hi, a, b),
    ensures
        sound(b.state, b.disk, span(file, lo, hi)),
        same_contents(a.state.pool, a.disk, b.state.pool, b.disk, span(file, lo, hi)),
        b.size >= hi,
{
    let live = span(file, lo, hi);
    if b.size == a.size && background_step(a.state, a.disk, b.state, b.disk) {
        law_background_keeps_contents(a.state, a.disk, live, b.state, b.disk);
    } else if exists|cache: CacheView, offset: int, data: Seq<u8>, from: int, to: int| #[trigger]
        writes_elsewhere(file, lo, hi, a, b, cache, offset, data, from, to) {
        let (cache, offset, data, from, to) = choose|
            cache: CacheView,
            offset: int,
            data: Seq<u8>,
            from: int,
            to: int,
        | #[trigger]
            writes_elsewhere(file, lo, hi, a, b, cache, offset, data, from, to);
        lemma_write_elsewhere(file, lo, hi, a, b, cache, offset, data, from, to);
    } else if exists|
        cache: CacheView,
        op: GapOp,
        cache_after: CacheView,
        op_after: GapOp,
        r: Progress,
    | #[trigger]
        fills_a_gap(file, a, b, cache, op, cache_after, op_after, r) {
        let (cache, op, cache_after, op_after, r) = choose|
            cache: CacheView,
            op: GapOp,
            cache_after: CacheView,
            op_after: GapOp,
            r: Progress,
        | #[trigger]
            fills_a_gap(file, a, b, cache, op, cache_after, op_after, r);
        lemma_gap_elsewhere(file, lo, hi, a, b, cache, op, cache_after, op_after, r);
    } else if a.state.pool.io is None && b.disk == a.disk && b.size == a.size && exists|
        key: PageKey,
        page: VirtPage,
    | #[trigger]
        maps_a_page(a.state, b.state, key, page) {
        let (key, page) = choose|key: PageKey, page: VirtPage| #[trigger]
            maps_a_page(a.state, b.state, key, page);
        if b.state == unmap_key(a.state, key, page) {
            law_unmapping_keeps_contents(a.state, a.disk, live, key, page);
        } else {
            law_mapping_keeps_contents(a.state, a.disk, live, key, page);
        }
    } else if a.state.pool.io is None && b.disk == a.disk && b.size == a.size
        && stores_elsewhere(file, lo, hi, a.state, b.state) {
        lemma_stores_elsewhere(file, lo, hi, a.state, a.disk, b.state);
    } else if b.state == a.state && b.disk == a.disk && hi <= b.size <= a.size {
    } else {
        let (f, size) = choose|f: FileId, size: int|
            {
                &&& 0 <= size <= a.disk[f].data.len()
                &&& f == file ==> size == a.size
                &&& b.disk == #[trigger] cut_disk(a.disk, f, size)
            };
        law_cut_keeps_the_file(a.state, a.disk, live, f, size);
        lemma_fewer_count(
            b.state,
            b.disk,
            without_tail(live, f, size),
            live,
        );
    }
}

/// What was written stays: whatever is done with this and other files, as long as nobody
/// writes to a range of a file or cuts it off, the file holds there what it held, and
/// reaches as far.
pub proof fn law_unwritten_range_stays(
    file: FileId,
    lo: int,
    hi: int,
    live: Live,
    run: Seq<UseMoment>,
)
    requires
        run.len() > 0,
        0 <= lo,
        span(file, lo, hi).subset_of(live),
        sound(run[0].state, run[0].disk, live),
        run[0].size >= hi,
        forall|i: int, j: int|
            0 <= i && j == i + 1 && j < run.len() ==> #[trigger] use_step(
                file,
                lo,
                hi,
                run[i],
                run[j],
            ),
    ensures
        sound(run.last().state, run.last().disk, span(file, lo, hi)),
        run.last().size >= hi,
        same_contents(
            run[0].state.pool,
            run[0].disk,
            run.last().state.pool,
            run.last().disk,
            span(file, lo, hi),
        ),
    decreases run.len(),
{
    let kept = span(file, lo, hi);
    if run.len() == 1 {
        lemma_fewer_count(run[0].state, run[0].disk, live, kept);
    } else {
        let rest = run.drop_last();
        assert forall|i: int, j: int|
            0 <= i && j == i + 1 && j < rest.len() implies #[trigger] use_step(
            file,
            lo,
            hi,
            rest[i],
            rest[j],
        ) by {
            assert(use_step(file, lo, hi, run[i], run[j]));
        }
        law_unwritten_range_stays(file, lo, hi, live, rest);
        let a = rest.last();
        let b = run.last();
        assert(rest[0] == run[0]);
        assert(a == run[run.len() - 2]);
        assert(use_step(file, lo, hi, run[run.len() - 2], run[run.len() - 1]));
        lemma_use_step(file, lo, hi, a, b);
        assert forall|f: FileId, pos: int|
            pos >= 0 && kept.contains((f, pos)) implies #[trigger] contents(
            b.state.pool,
            b.disk,
            f,
            pos,
        ) == contents(run[0].state.pool, run[0].disk, f, pos) by {
            assert(contents(a.state.pool, a.disk, f, pos) == contents(
                run[0].state.pool,
                run[0].disk,
                f,
                pos,
            ));
        }
    }
}

/// A moment while a file is being written, with the size that the cache has for it.
pub struct WriteMoment {
    pub state: PoolState,
    pub disk: Disk,
    pub done: int,
    pub size: int,
}

impl WriteMoment {
    /// The moment without the size.
    pub open spec fn moment(self) -> Moment {
        Moment { state: self.state, disk: self.disk, done: self.done }
    }
}

/// One moment after another while `data` is being written to a file at `offset`. The
/// file reaches at least as far as the data that is written.
pub open spec fn sized_write_step(
    file: FileId,
    offset: int,
    data: Seq<u8>,
    a: WriteMoment,
    b: WriteMoment,
) -> bool {
    &&& write_step(file, offset, data, a.moment(), b.moment())
    &&& b.size == if a.done < b.done && a.size < offset + b.done {
        offset + b.done
    } else {
        a.size
    }
}

/// While a file is being written it reaches to what is written.
proof fn lemma_written_size(file: FileId, offset: int, data: Seq<u8>, run: Seq<WriteMoment>)
    requires
        run.len() > 0,
        run[0].done == 0,
        forall|i: int, j: int|
            0 <= i && j == i + 1 && j < run.len() ==> #[trigger] sized_write_step(
                file,
                offset,
                data,
                run[i],
                run[j],
            ),
    ensures
        run.last().done > 0 ==> run.last().size >= offset + run.last().done,
    decreases run.len(),
{
    if run.len() > 1 {
        let rest = run.drop_last();
        assert forall|i: int, j: int|
            0 <= i && j == i + 1 && j < rest.len() implies #[trigger] sized_write_step(
            file,
            offset,
            data,
            rest[i],
            rest[j],
        ) by {
            assert(sized_write_step(file, offset, data, run[i], run[j]));
        }
        lemma_written_size(file, offset, data, rest);
        assert(sized_write_step(file, offset, data, run[run.len() - 2], run[run.len() - 1]));
    }
}

/// A program reads back what it wrote: after `data` was written to a file at `offset`,
/// whatever was evicted, read in or written back on the way, and whatever was done with
/// this and other files since but to write to the same bytes or to cut them off, a read of
/// as many bytes from `offset` on is given all of them, and they are the data.
pub proof fn law_file_keeps_what_was_written(
    file: FileId,
    offset: int,
    data: Seq<u8>,
    live: Live,
    writing: Seq<WriteMoment>,
    using: Seq<UseMoment>,
    reading: Seq<ReadMoment>,
)
    requires
        0 <= offset,
        0 < data.len(),
        offset + data.len() <= usize::MAX,
        writing.len() > 0,
        writing[0].done == 0,
        sound(writing[0].state, writing[0].disk, live),
        forall|i: int, j: int|
            0 <= i && j == i + 1 && j < writing.len() ==> #[trigger] sized_write_step(
                file,
                offset,
                data,
                writing[i],
                writing[j],
            ),
        writing.last().done == data.len(),
        using.len() > 0,
        using[0].state == writing.last().state,
        using[0].disk == writing.last().disk,
        using[0].size == writing.last().size,
        forall|i: int, j: int|
            0 <= i && j == i + 1 && j < using.len() ==> #[trigger] use_step(
                file,
                offset,
                offset + data.len(),
                using[i],
                using[j],
            ),
        reading.len() > 0,
        reading[0].state == using.last().state,
        reading[0].disk == using.last().disk,
        reading[0].done == 0,
        reading[0].buf.len() == data.len(),
        forall|i: int, j: int|
            0 <= i && j == i + 1 && j < reading.len() ==> #[trigger] read_step(
                file,
                offset,
                reading[i],
                reading[j],
            ),
        reading.last().done == readable(using.last().size, offset, data.len() as int),
    ensures
        reading.last().done == data.len(),
        reading.last().buf == data,
{
    let hi = offset + data.len();
    let kept = span(file, offset, hi);
    let moments = Seq::new(writing.len(), |i: int| writing[i].moment());
    assert forall|i: int, j: int|
        0 <= i && j == i + 1 && j < moments.len() implies #[trigger] write_step(
        file,
        offset,
        data,
        moments[i],
        moments[j],
    ) by {
        assert(sized_write_step(file, offset, data, writing[i], writing[j]));
    }
    law_read_after_write(file, offset, data, live, moments);
    lemma_written_size(file, offset, data, writing);
    let more = with_range(live, file, offset, hi);
    law_unwritten_range_stays(file, offset, hi, more, using);
    law_read_returns_the_file(file, offset, kept, reading);
    let last = writing.last();
    assert forall|i: int| 0 <= i < data.len() implies #[trigger] reading.last().buf[i] == data[i] by {
        let pos = offset + i;
        assert(kept.contains((file, pos)) && more.contains((file, pos)));
        assert(contents(last.state.pool, last.disk, file, pos) == data[i]);
        assert(contents(using.last().state.pool, using.last().disk, file, pos) == contents(
            using[0].state.pool,
            using[0].disk,
            file,
            pos,
        ));
    }
    assert(reading.last().buf =~= data);
}

} // verus!
