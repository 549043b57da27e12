//! The dumper: its settings and the state machine that turns the bytes of
//! each read into output lines.
use vstd::prelude::*;
use crate::hexaprint::line::{line_for, padding_fits, format_line_by_type};

verus! {

/// How each line of the dump is laid out.
#[derive(Debug, Clone, Copy, PartialEq, Eq, Structural)]
pub enum OutputFormat {
    Canonical,
    PlainHex,
    CArray,
    Uppercase,
}

/// The most bytes asked for in one read.
pub const BUFFER_SIZE: usize = 8192;

/// Where a dump stands between two reads.
#[derive(Debug, Clone, Copy, PartialEq, Eq, Structural)]
pub enum DumpState {
    /// Still discarding `remaining` bytes from the start of the input.
    Skipping { remaining: usize },
    /// Showing at most `remaining` more bytes, the next of them at `offset`.
    Dumping { remaining: usize, offset: usize },
    /// Nothing more to read.
    Finished,
    /// The input ended before all the bytes to skip were read.
    InputTooShort,
}

/// What the caller does next.
#[derive(Debug, Clone, Copy, PartialEq, Eq, Structural)]
pub enum DumpRequest {
    /// Read up to this many bytes and hand them to `dump`; they are discarded.
    Discard(usize),
    /// Read up to this many bytes and hand them to `dump`; they are shown.
    Read(usize),
    /// The dump is complete.
    Finish,
    /// The dump failed: the input is shorter than the bytes to skip.
    InputTooShort,
}

/// The lines for the bytes of one read, cut into runs of `bytes_per_line`
/// bytes (the last run may be shorter), the first at `offset`.
pub open spec fn chunk_lines(
    format: OutputFormat,
    offset: nat,
    data: Seq<u8>,
    bytes_per_line: nat,
    show_ascii: bool,
    use_colors: bool,
) -> Seq<Seq<char>>
    decreases data.len(),
{
    if data.len() == 0 || bytes_per_line == 0 {
        Seq::empty()
    } else {
        let k = if bytes_per_line < data.len() { bytes_per_line } else { data.len() };
        seq![line_for(format, offset, data.take(k as int), bytes_per_line, show_ascii, use_colors)]
            + chunk_lines(
            format,
            offset + k,
            data.skip(k as int),
            bytes_per_line,
            show_ascii,
            use_colors,
        )
    }
}

/// `a` or `b`, whichever is smaller.
pub open spec fn min_nat(a: nat, b: nat) -> nat {
    if a < b {
        a
    } else {
        b
    }
}

/// A read of no more bytes than a request asks for is one `dump` accepts, as
/// long as the offsets it reaches can be counted.
pub proof fn law_requested_reads_fit(d: HexDumper, st: DumpState, data: Seq<u8>)
    requires
        match d.request_for(st) {
            DumpRequest::Discard(n) => data.len() <= n,
            DumpRequest::Read(n) => data.len() <= n,
            DumpRequest::Finish => false,
            DumpRequest::InputTooShort => false,
        },
        st matches DumpState::Dumping { remaining, offset } ==> offset + data.len() <= usize::MAX,
    ensures
        d.read_fits(st, data),
{
}

/// While dumping, every byte read is shown once: the count of bytes still to
/// show falls, and the offset rises, by the number of bytes read; reading
/// nothing ends the dump. Skipping shows nothing.
pub proof fn law_dump_accounts_for_every_byte(d: HexDumper, st: DumpState, data: Seq<u8>)
    requires
        d.read_fits(st, data),
    ensures
        st matches DumpState::Dumping { remaining, offset } ==> if data.len() == 0 {
            d.next_state(st, data) == DumpState::Finished
        } else {
            d.next_state(st, data) == (DumpState::Dumping {
                remaining: (remaining - data.len()) as usize,
                offset: (offset + data.len()) as usize,
            })
        },
        st is Skipping ==> d.lines_of_read(st, data).len() == 0,
        st is Finished ==> d.next_state(st, data) == DumpState::Finished,
        st matches DumpState::Skipping { remaining } ==> (data.len() == 0
            <==> d.next_state(st, data) == DumpState::InputTooShort),
{
}

/// The lines of a read show its bytes in runs of `bytes_per_line`: the first
/// line shows the first run at the read's offset, and the rest are the lines
/// of the remaining bytes from the offset after that run.
pub proof fn law_lines_cover_runs(
    format: OutputFormat,
    offset: nat,
    data: Seq<u8>,
    bytes_per_line: nat,
    show_ascii: bool,
    use_colors: bool,
)
    requires
        bytes_per_line > 0,
        data.len() > 0,
    ensures
        ({
            let k = min_nat(bytes_per_line, data.len());
            let lines = chunk_lines(format, offset, data, bytes_per_line, show_ascii, use_colors);
            &&& lines.len() >= 1
            &&& lines[0] == line_for(format, offset, data.take(k as int), bytes_per_line, show_ascii, use_colors)
            &&& lines.drop_first() == chunk_lines(format, offset + k, data.skip(k as int), bytes_per_line, show_ascii, use_colors)
            &&& data.len() <= bytes_per_line ==> lines.len() == 1
        }),
{
    let k = min_nat(bytes_per_line, data.len());
    let lines = chunk_lines(format, offset, data, bytes_per_line, show_ascii, use_colors);
    let rest = chunk_lines(format, offset + k, data.skip(k as int), bytes_per_line, show_ascii, use_colors);
    assert(lines.drop_first() =~= rest);
    if data.len() <= bytes_per_line {
        assert(data.skip(k as int).len() == 0);
    }
}

/// The settings of a hex dump.
#[derive(Debug)]
pub struct HexDumper {
    bytes_per_line: usize,
    show_ascii: bool,
    output_format: OutputFormat,
    use_colors: bool,
    offset: usize,
    skip_bytes: Option<usize>,
    length_bytes: Option<usize>,
}

impl HexDumper {
    /// Bytes shown per line.
    pub closed spec fn bytes_per_line_view(&self) -> nat {
        self.bytes_per_line as nat
    }

    /// Whether the ASCII column is shown.
    pub closed spec fn show_ascii_view(&self) -> bool {
        self.show_ascii
    }

    /// The output format.
    pub closed spec fn format_view(&self) -> OutputFormat {
        self.output_format
    }

    /// Whether colours are used.
    pub closed spec fn use_colors_view(&self) -> bool {
        self.use_colors
    }

    /// The offset shown for the first byte when nothing is skipped.
    pub closed spec fn offset_view(&self) -> nat {
        self.offset as nat
    }

    /// How many bytes to skip first.
    pub closed spec fn skip_view(&self) -> Option<usize> {
        self.skip_bytes
    }

    /// How many bytes to show at most.
    pub closed spec fn length_view(&self) -> Option<usize> {
        self.length_bytes
    }

    /// The lines of a read can be formed: runs are non-empty and the padding
    /// of a short line can be counted.
    pub open spec fn lines_fit(&self) -> bool {
        self.bytes_per_line_view() > 0 && padding_fits(1, self.bytes_per_line_view())
    }

    /// The state in which the dump of the bytes after the skipped ones starts:
    /// their offsets count from the number of skipped bytes.
    pub open spec fn dumping_state(&self) -> DumpState {
        DumpState::Dumping {
            remaining: match self.length_view() {
                Some(n) => n,
                None => usize::MAX,
            },
            offset: match self.skip_view() {
                Some(n) => if n > 0 { n } else { self.offset_view() as usize },
                None => self.offset_view() as usize,
            },
        }
    }

    /// The state a dump starts in.
    pub open spec fn initial_state(&self) -> DumpState {
        match self.skip_view() {
            Some(n) => if n > 0 { DumpState::Skipping { remaining: n } } else { self.dumping_state() },
            None => self.dumping_state(),
        }
    }

    /// What to read in state `st`.
    pub open spec fn request_for(&self, st: DumpState) -> DumpRequest {
        match st {
            DumpState::Skipping { remaining } => DumpRequest::Discard(
                min_nat(BUFFER_SIZE as nat, remaining as nat) as usize,
            ),
            DumpState::Dumping { remaining, offset } => if remaining == 0 {
                DumpRequest::Finish
            } else {
                DumpRequest::Read(min_nat(BUFFER_SIZE as nat, remaining as nat) as usize)
            },
            DumpState::Finished => DumpRequest::Finish,
            DumpState::InputTooShort => DumpRequest::InputTooShort,
        }
    }

    /// The state after the bytes `data` of a read made in state `st`.
    pub open spec fn next_state(&self, st: DumpState, data: Seq<u8>) -> DumpState {
        match st {
            DumpState::Skipping { remaining } => if data.len() == 0 {
                DumpState::InputTooShort
            } else if data.len() >= remaining {
                self.dumping_state()
            } else {
                DumpState::Skipping { remaining: (remaining - data.len()) as usize }
            },
            DumpState::Dumping { remaining, offset } => if data.len() == 0 {
                DumpState::Finished
            } else {
                DumpState::Dumping {
                    remaining: (remaining - data.len()) as usize,
                    offset: (offset + data.len()) as usize,
                }
            },
            DumpState::Finished => DumpState::Finished,
            DumpState::InputTooShort => DumpState::InputTooShort,
        }
    }

    /// The lines printed for the bytes `data` of a read made in state `st`.
    pub open spec fn lines_of_read(&self, st: DumpState, data: Seq<u8>) -> Seq<Seq<char>> {
        match st {
            DumpState::Dumping { remaining, offset } => chunk_lines(
                self.format_view(),
                offset as nat,
                data,
                self.bytes_per_line_view(),
                self.show_ascii_view(),
                self.use_colors_view(),
            ),
            _ => Seq::empty(),
        }
    }

    /// The bytes of a read made in state `st` are as many as were asked for,
    /// and their offsets can be counted.
    pub open spec fn read_fits(&self, st: DumpState, data: Seq<u8>) -> bool {
        match st {
            DumpState::Skipping { remaining } => data.len() <= remaining,
            DumpState::Dumping { remaining, offset } => {
                &&& data.len() <= remaining
                &&& offset + data.len() <= usize::MAX
            },
            DumpState::Finished => data.len() == 0,
            DumpState::InputTooShort => data.len() == 0,
        }
    }

    /// The offset of the first byte shown.
    pub open spec fn start_offset(&self) -> nat {
        match self.dumping_state() {
            DumpState::Dumping { remaining, offset } => offset as nat,
            _ => 0,
        }
    }

    /// Each read of `reads`, made in turn from state `st`, is made when the
    /// dumper asks for one and is one it accepts.
    pub open spec fn trace_fits(&self, st: DumpState, reads: Seq<Seq<u8>>) -> bool
        decreases reads.len(),
    {
        if reads.len() == 0 {
            true
        } else {
            &&& (self.request_for(st) is Read || self.request_for(st) is Discard)
            &&& self.read_fits(st, reads[0])
            &&& self.trace_fits(self.next_state(st, reads[0]), reads.drop_first())
        }
    }

    /// The state after the reads `reads` made in turn from `st`.
    pub open spec fn state_after(&self, st: DumpState, reads: Seq<Seq<u8>>) -> DumpState
        decreases reads.len(),
    {
        if reads.len() == 0 {
            st
        } else {
            self.state_after(self.next_state(st, reads[0]), reads.drop_first())
        }
    }

    /// The reads shown, made in turn from `st`: for each non-empty read made
    /// while dumping, the offset of its first byte and its bytes.
    pub open spec fn shown_reads(&self, st: DumpState, reads: Seq<Seq<u8>>) -> Seq<(nat, Seq<u8>)>
        decreases reads.len(),
    {
        if reads.len() == 0 {
            Seq::empty()
        } else {
            let here: Seq<(nat, Seq<u8>)> = match st {
                DumpState::Dumping { remaining, offset } => if reads[0].len() > 0 {
                    seq![(offset as nat, reads[0])]
                } else {
                    Seq::empty()
                },
                _ => Seq::empty(),
            };
            here + self.shown_reads(self.next_state(st, reads[0]), reads.drop_first())
        }
    }

    /// The lines printed for the reads `reads` made in turn from `st`.
    pub open spec fn lines_of_reads(&self, st: DumpState, reads: Seq<Seq<u8>>) -> Seq<Seq<char>>
        decreases reads.len(),
    {
        if reads.len() == 0 {
            Seq::empty()
        } else {
            self.lines_of_read(st, reads[0]) + self.lines_of_reads(
                self.next_state(st, reads[0]),
                reads.drop_first(),
            )
        }
    }

    /// The lines of the shown reads `shown`, one read after the other.
    pub open spec fn lines_of_shown(&self, shown: Seq<(nat, Seq<u8>)>) -> Seq<Seq<char>>
        decreases shown.len(),
    {
        if shown.len() == 0 {
            Seq::empty()
        } else {
            chunk_lines(
                self.format_view(),
                shown[0].0,
                shown[0].1,
                self.bytes_per_line_view(),
                self.show_ascii_view(),
                self.use_colors_view(),
            ) + self.lines_of_shown(shown.drop_first())
        }
    }

    /// The dump is over after the reads: complete or failed.
    pub open spec fn done(&self, st: DumpState, reads: Seq<Seq<u8>>) -> bool {
        self.request_for(self.state_after(st, reads)) is Finish || self.request_for(
            self.state_after(st, reads),
        ) is InputTooShort
    }

    /// A dumper with these settings; offsets count from 0.
    pub fn new(
        bytes_per_line: usize,
        show_ascii: bool,
        output_format: OutputFormat,
        use_colors: bool,
        length_bytes: Option<usize>,
        skip_bytes: Option<usize>,
    ) -> (d: HexDumper)
        ensures
            d.bytes_per_line_view() == bytes_per_line,
            d.show_ascii_view() == show_ascii,
            d.format_view() == output_format,
            d.use_colors_view() == use_colors,
            d.length_view() == length_bytes,
            d.skip_view() == skip_bytes,
            d.offset_view() == 0,
    {
        HexDumper {
            bytes_per_line,
            show_ascii,
            output_format,
            use_colors,
            length_bytes,
            skip_bytes,
            offset: 0,
        }
    }

    fn dumping(&self) -> (st: DumpState)
        ensures
            st == self.dumping_state(),
    {
        let remaining = match self.length_bytes {
            Some(n) => n,
            None => usize::MAX,
        };
        let offset = match self.skip_bytes {
            Some(n) => if n > 0 { n } else { self.offset },
            None => self.offset,
        };
        DumpState::Dumping { remaining, offset }
    }

    /// The state a dump starts in: skipping first when bytes are to be skipped.
    pub fn start(&self) -> (st: DumpState)
        ensures
            st == self.initial_state(),
    {
        match self.skip_bytes {
            Some(n) => if n > 0 { DumpState::Skipping { remaining: n } } else { self.dumping() },
            None => self.dumping(),
        }
    }

    /// What to read next in state `st`: at most `BUFFER_SIZE` bytes, and no
    /// more than remain to be skipped or shown.
    pub fn request(&self, st: DumpState) -> (r: DumpRequest)
        ensures
            r == self.request_for(st),
    {
        match st {
            DumpState::Skipping { remaining } => DumpRequest::Discard(
                if BUFFER_SIZE < remaining { BUFFER_SIZE } else { remaining },
            ),
            DumpState::Dumping { remaining, offset } => if remaining == 0 {
                DumpRequest::Finish
            } else {
                DumpRequest::Read(if BUFFER_SIZE < remaining { BUFFER_SIZE } else { remaining })
            },
            DumpState::Finished => DumpRequest::Finish,
            DumpState::InputTooShort => DumpRequest::InputTooShort,
        }
    }

    /// Takes the bytes `data` of the read made in state `st` (none at the end
    /// of the input) and returns the next state and the lines to print: while
    /// skipping, none, and the end of the input fails the dump; while
    /// dumping, one line per run of `bytes_per_line` bytes of this read.
    pub fn dump(&self, st: DumpState, data: &[u8]) -> (r: (DumpState, std::vec::Vec<String>))
        requires
            (st is Dumping && data@.len() > 0) ==> self.lines_fit(),
            self.read_fits(st, data@),
        ensures
            r.0 == self.next_state(st, data@),
            r.1@.len() == self.lines_of_read(st, data@).len(),
            forall|i: int|
                0 <= i < r.1@.len() ==> #[trigger] r.1@[i]@ == self.lines_of_read(st, data@)[i],
    {
        let mut lines: std::vec::Vec<String> = std::vec::Vec::new();
        match st {
            DumpState::Skipping { remaining } => {
                if data.len() == 0 {
                    (DumpState::InputTooShort, lines)
                } else if data.len() >= remaining {
                    (self.dumping(), lines)
                } else {
                    (DumpState::Skipping { remaining: remaining - data.len() }, lines)
                }
            },
            DumpState::Dumping { remaining, offset } => {
                if data.len() == 0 {
                    return (DumpState::Finished, lines);
                }
                let ghost all = chunk_lines(
                    self.output_format,
                    offset as nat,
                    data@,
                    self.bytes_per_line as nat,
                    self.show_ascii,
                    self.use_colors,
                );
                let mut pos: usize = 0;
                assert(data@.skip(0) =~= data@);
                while pos < data.len()
                    invariant
                        self.lines_fit(),
                        pos <= data@.len(),
                        offset + data@.len() <= usize::MAX,
                        all == chunk_lines(
                            self.output_format,
                            offset as nat,
                            data@,
                            self.bytes_per_line as nat,
                            self.show_ascii,
                            self.use_colors,
                        ),
                        lines@.len() + chunk_lines(
                            self.output_format,
                            (offset + pos) as nat,
                            data@.skip(pos as int),
                            self.bytes_per_line as nat,
                            self.show_ascii,
                            self.use_colors,
                        ).len() == all.len(),
                        forall|i: int| 0 <= i < lines@.len() ==> #[trigger] lines@[i]@ == all[i],
                        forall|i: int|
                            0 <= i < all.len() - lines@.len() ==> all[lines@.len() + i]
                                == #[trigger] chunk_lines(
                                self.output_format,
                                (offset + pos) as nat,
                                data@.skip(pos as int),
                                self.bytes_per_line as nat,
                                self.show_ascii,
                                self.use_colors,
                            )[i],
                    decreases data@.len() - pos,
                {
                    let left = data.len() - pos;
                    let k = if self.bytes_per_line < left { self.bytes_per_line } else { left };
                    let chunk = &data[pos..pos + k];
                    let ghost rest = data@.skip(pos as int);
                    assert(chunk@ =~= rest.take(k as int));
                    assert(rest.skip(k as int) =~= data@.skip(pos + k));
                    let line = format_line_by_type(
                        offset + pos,
                        chunk,
                        self.output_format,
                        self.bytes_per_line,
                        self.show_ascii,
                        self.use_colors,
                    );
                    let ghost tail = chunk_lines(
                        self.output_format,
                        (offset + pos + k) as nat,
                        data@.skip(pos + k),
                        self.bytes_per_line as nat,
                        self.show_ascii,
                        self.use_colors,
                    );
                    let ghost here = chunk_lines(
                        self.output_format,
                        (offset + pos) as nat,
                        rest,
                        self.bytes_per_line as nat,
                        self.show_ascii,
                        self.use_colors,
                    );
                    assert(here == seq![line@] + tail);
                    let ghost n = lines@.len();
                    lines.push(line);
                    pos = pos + k;
                    assert forall|i: int| 0 <= i < all.len() - lines@.len() implies all[lines@.len() + i]
                        == #[trigger] tail[i] by {
                        assert(all[n + (i + 1)] == here[i + 1]);
                    }
                    assert(all[n as int] == here[0]);
                }
                assert(data@.skip(data@.len() as int) =~= Seq::<u8>::empty());
                (DumpState::Dumping { remaining: remaining - data.len(), offset: offset + data.len() }, lines)
            },
            DumpState::Finished => (DumpState::Finished, lines),
            DumpState::InputTooShort => (DumpState::InputTooShort, lines),
        }
    }
}

/// The bytes of the shown reads `shown`, one after the other.
pub open spec fn joined(shown: Seq<(nat, Seq<u8>)>) -> Seq<u8>
    decreases shown.len(),
{
    if shown.len() == 0 {
        Seq::empty()
    } else {
        shown[0].1 + joined(shown.drop_first())
    }
}

/// Each shown read starts where the one before it ended, the first at
/// `start`.
pub open spec fn consecutive(shown: Seq<(nat, Seq<u8>)>, start: nat) -> bool
    decreases shown.len(),
{
    shown.len() == 0 || (shown[0].0 == start && consecutive(
        shown.drop_first(),
        start + shown[0].1.len(),
    ))
}

/// `reads` are what reading `src` from its start gives: each read holds the
/// next bytes of `src`, and a read is empty only once all of `src` was read.
pub open spec fn reads_of(src: Seq<u8>, reads: Seq<Seq<u8>>) -> bool
    decreases reads.len(),
{
    reads.len() == 0 || {
        &&& reads[0].len() <= src.len()
        &&& src.take(reads[0].len() as int) == reads[0]
        &&& (reads[0].len() == 0 ==> src.len() == 0)
        &&& reads_of(src.skip(reads[0].len() as int), reads.drop_first())
    }
}

/// No read is asked for once the dump is over.
proof fn lemma_no_reads_after_end(d: HexDumper, st: DumpState, reads: Seq<Seq<u8>>)
    requires
        st is Finished || st is InputTooShort,
        d.trace_fits(st, reads),
    ensures
        reads.len() == 0,
        d.state_after(st, reads) == st,
        d.shown_reads(st, reads).len() == 0,
{
}

/// The lines printed over a run of reads are the lines of the reads shown.
proof fn lemma_lines_of_reads(d: HexDumper, st: DumpState, reads: Seq<Seq<u8>>)
    ensures
        d.lines_of_reads(st, reads) == d.lines_of_shown(d.shown_reads(st, reads)),
    decreases reads.len(),
{
    if reads.len() > 0 {
        let next = d.next_state(st, reads[0]);
        let tail = reads.drop_first();
        lemma_lines_of_reads(d, next, tail);
        let rest = d.shown_reads(next, tail);
        let all = d.shown_reads(st, reads);
        match st {
            DumpState::Dumping { remaining, offset } => {
                if reads[0].len() > 0 {
                    assert(all.drop_first() =~= rest);
                } else {
                    assert(all =~= rest);
                }
            },
            _ => {
                assert(all =~= rest);
            },
        }
    }
}

/// While dumping with `remaining` bytes left to show, the reads of `rest`
/// show its first `remaining` bytes (all of them if it is shorter), at
/// consecutive offsets.
proof fn lemma_dumping_run(d: HexDumper, st: DumpState, rest: Seq<u8>, reads: Seq<Seq<u8>>)
    requires
        st is Dumping,
        d.trace_fits(st, reads),
        reads_of(rest, reads),
        d.done(st, reads),
    ensures
        d.state_after(st, reads) != DumpState::InputTooShort,
        consecutive(d.shown_reads(st, reads), st->offset as nat),
        joined(d.shown_reads(st, reads)) == rest.take(min_nat(st->Dumping_remaining as nat, rest.len()) as int),
    decreases reads.len(),
{
    let r = st->Dumping_remaining;
    let o = st->offset;
    if reads.len() == 0 {
        assert(rest.take(0) =~= Seq::<u8>::empty());
    } else {
        let x = reads[0];
        let tail = reads.drop_first();
        let next = d.next_state(st, x);
        if x.len() == 0 {
            lemma_no_reads_after_end(d, next, tail);
            assert(rest.take(0) =~= Seq::<u8>::empty());
        } else {
            let rest2 = rest.skip(x.len() as int);
            lemma_dumping_run(d, next, rest2, tail);
            let shown = d.shown_reads(st, reads);
            let shown2 = d.shown_reads(next, tail);
            assert(shown.drop_first() =~= shown2);
            assert(rest.take(min_nat(r as nat, rest.len()) as int) =~= x + rest2.take(
                min_nat((r - x.len()) as nat, rest2.len()) as int,
            ));
        }
    }
}

/// While skipping `remaining` bytes, the reads of `rest` fail the dump when
/// `rest` is shorter than that, and otherwise show its bytes after the
/// skipped ones, at most `length` of them, at consecutive offsets from the
/// starting offset.
proof fn lemma_skipping_run(d: HexDumper, st: DumpState, rest: Seq<u8>, reads: Seq<Seq<u8>>)
    requires
        st is Skipping,
        st->Skipping_remaining > 0,
        d.trace_fits(st, reads),
        reads_of(rest, reads),
        d.done(st, reads),
    ensures
        consecutive(d.shown_reads(st, reads), d.start_offset()),
        ({
            let r = st->Skipping_remaining as nat;
            let limit = d.dumping_state()->Dumping_remaining as nat;
            if rest.len() < r {
                &&& d.state_after(st, reads) == DumpState::InputTooShort
                &&& d.shown_reads(st, reads).len() == 0
            } else {
                &&& d.state_after(st, reads) != DumpState::InputTooShort
                &&& joined(d.shown_reads(st, reads)) == rest.subrange(
                    r as int,
                    (r + min_nat(limit, (rest.len() - r) as nat)) as int,
                )
            }
        }),
    decreases reads.len(),
{
    let r = st->Skipping_remaining;
    let x = reads[0];
    let tail = reads.drop_first();
    let next = d.next_state(st, x);
    let limit = d.dumping_state()->Dumping_remaining as nat;
    if x.len() == 0 {
        lemma_no_reads_after_end(d, next, tail);
    } else if x.len() >= r {
        lemma_dumping_run(d, next, rest.skip(x.len() as int), tail);
        assert(rest.skip(r as int).take(min_nat(limit, (rest.len() - r) as nat) as int) =~= rest.subrange(
            r as int,
            (r + min_nat(limit, (rest.len() - r) as nat)) as int,
        ));
    } else {
        let rest2 = rest.skip(x.len() as int);
        lemma_skipping_run(d, next, rest2, tail);
        if rest.len() >= r {
            assert(rest2.subrange(
                (r - x.len()) as int,
                (r - x.len()) + min_nat(limit, (rest2.len() - (r - x.len())) as nat),
            ) =~= rest.subrange(r as int, (r + min_nat(limit, (rest.len() - r) as nat)) as int));
        }
    }
}

/// Over a whole dump of the input `src`, read as the dumper asks until the
/// dump is over: when `src` is shorter than the bytes to skip, the dump fails
/// and shows nothing; otherwise the reads shown hold exactly the bytes of
/// `src` from the skip on, at most `length` of them, at consecutive offsets
/// from the starting offset, and the lines printed are their lines.
pub proof fn law_dump_shows_input_from_skip(d: HexDumper, src: Seq<u8>, reads: Seq<Seq<u8>>)
    requires
        d.trace_fits(d.initial_state(), reads),
        reads_of(src, reads),
        d.done(d.initial_state(), reads),
    ensures
        ({
            let st = d.initial_state();
            let shown = d.shown_reads(st, reads);
            let skip: nat = match d.skip_view() {
                Some(n) => n as nat,
                None => 0,
            };
            let limit: nat = match d.length_view() {
                Some(n) => n as nat,
                None => usize::MAX as nat,
            };
            &&& d.lines_of_reads(st, reads) == d.lines_of_shown(shown)
            &&& consecutive(shown, d.start_offset())
            &&& if src.len() < skip {
                &&& d.state_after(st, reads) == DumpState::InputTooShort
                &&& shown.len() == 0
            } else {
                &&& d.state_after(st, reads) != DumpState::InputTooShort
                &&& joined(shown) == src.subrange(
                    skip as int,
                    (skip + min_nat(limit, (src.len() - skip) as nat)) as int,
                )
            }
        }),
{
    let st = d.initial_state();
    lemma_lines_of_reads(d, st, reads);
    if st is Skipping {
        lemma_skipping_run(d, st, src, reads);
    } else {
        lemma_dumping_run(d, st, src, reads);
        assert(src.take(min_nat(st->Dumping_remaining as nat, src.len()) as int) =~= src.subrange(
            0,
            min_nat(st->Dumping_remaining as nat, src.len()) as int,
        ));
    }
}

} // verus!
