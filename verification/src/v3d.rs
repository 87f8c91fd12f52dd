//! The V3D: its control-list executors, and the memory it works on.

use vstd::prelude::*;

use crate::program;
use crate::program::{Exchange, Program};
use crate::registers;
use crate::registers::{Access, RegHistory, RegProgram, RegisterBlock, Registers};

pub mod bcl;
pub mod list;
pub mod rcl;
pub mod reading;
pub mod shader_record;
pub mod texture;
pub mod uniforms;
pub mod watching;

verus! {

broadcast use crate::program::group_program;

/// Where the registers are.
pub const V3D_BASE: u32 = 0x3fc0_0000;

pub const IDENT0: u32 = 0x000;

pub const IDENT1: u32 = 0x004;

pub const IDENT2: u32 = 0x008;

pub const V3D_L2CACTL: u32 = 0x020;

pub const V3D_SLCACTL: u32 = 0x024;

pub const CT0CS: u32 = 0x100;

pub const CT1CS: u32 = 0x104;

pub const CT0EA: u32 = 0x108;

pub const CT1EA: u32 = 0x10c;

pub const CT0CA: u32 = 0x110;

pub const CT1CA: u32 = 0x114;

pub const V3D_CT00RA0: u32 = 0x118;

pub const V3D_CT0LC: u32 = 0x120;

pub const V3D_CT1LC: u32 = 0x124;

pub const V3D_CT0PC: u32 = 0x128;

pub const V3D_CT1PC: u32 = 0x12c;

pub const V3D_PCS: u32 = 0x130;

pub const V3D_BFC: u32 = 0x134;

pub const V3D_RFC: u32 = 0x138;

pub const V3D_BPCA: u32 = 0x300;

pub const V3D_BPCS: u32 = 0x304;

pub const V3D_BPOA: u32 = 0x308;

pub const V3D_BPOS: u32 = 0x30c;

pub const V3D_BXCF: u32 = 0x310;

pub const V3D_SQRSV0: u32 = 0x410;

pub const V3D_SQRSV1: u32 = 0x414;

pub const V3D_VPACNTL: u32 = 0x500;

pub const V3D_VPMBASE: u32 = 0x504;

pub const V3D_PCTRC: u32 = 0x670;

pub const V3D_PCTRE: u32 = 0x674;

/// The first counter; the others follow, eight bytes apart.
pub const V3D_PCTR0: u32 = 0x680;

/// What the first counter counts; the others follow, eight bytes apart.
pub const V3D_PCTRS0: u32 = 0x684;

pub const V3D_DBGE: u32 = 0xf00;

pub const V3D_FDBGO: u32 = 0xf04;

pub const V3D_FDBGB: u32 = 0xf08;

pub const V3D_ERRSTAT: u32 = 0xf20;

/// Clears the L2 cache.
pub const L2CCLR: u32 = 0x0000_0004;

/// Clears the caches for instructions, uniforms and textures.
pub const SLCACTL_CLEAR_ALL: u32 = 0x0f0f_0f0f;

/// Clears the caches for textures.
pub const SLCACTL_CLEAR_TEXTURE: u32 = 0x0f0f_0000;

/// All counters.
pub const PCTRC_ALL: u32 = 0x0000_ffff;

/// Counters count, the first four of them.
pub const PCTRE_FIRST_FOUR: u32 = 0x8000_000f;

/// An executor runs.
pub const CTRUN: u32 = 0x0000_0020;

/// An executor met an error.
pub const CTERR: u32 = 0x0000_0008;

/// How often a register is looked at before a pass counts as hung.
pub const WAIT_TIMEOUT_ITERATIONS: u32 = 50_000_000;

/// Counters that are used.
pub const PERFORMANCE_COUNTERS: usize = 4;

/// What went wrong with a frame.
#[derive(Clone, Copy, Debug, PartialEq, Eq, Structural)]
pub enum Error {
    /// The executor of the binning pass met an error.
    BinFailed,
    /// It did not stop.
    BinTimeout,
    /// It stopped, but the tile lists were not flushed to memory.
    BinFlushTimeout,
    /// The executor of the render pass met an error.
    RenderFailed,
    /// It did not stop.
    RenderTimeout,
}

/// What the diagnostic registers hold.
#[derive(Clone, Copy, Debug, PartialEq, Eq, Structural)]
pub struct DebugStatus {
    pub ct0ca: u32,
    pub ct1ca: u32,
    pub ct0cs: u32,
    pub ct1cs: u32,
    pub pcs: u32,
    pub bfc: u32,
    pub rfc: u32,
    pub fdbgo: u32,
    pub fdbgb: u32,
    pub bpca: u32,
    pub bpcs: u32,
    pub ct0lc: u32,
    pub ct1lc: u32,
    pub ct0pc: u32,
    pub ct1pc: u32,
    pub errstat: u32,
    pub dbge: u32,
    pub sqrsv0: u32,
    pub sqrsv1: u32,
    pub ct00ra0: u32,
    pub bpoa: u32,
    pub bpos: u32,
    pub bxcf: u32,
    pub vpacntl: u32,
    pub vpmbase: u32,
}

/// The diagnostic registers, in the order in which they are read.
pub open spec fn status_registers() -> Seq<u32> {
    seq![
        CT0CA,
        CT1CA,
        CT0CS,
        CT1CS,
        V3D_PCS,
        V3D_BFC,
        V3D_RFC,
        V3D_FDBGO,
        V3D_FDBGB,
        V3D_BPCA,
        V3D_BPCS,
        V3D_CT0LC,
        V3D_CT1LC,
        V3D_CT0PC,
        V3D_CT1PC,
        V3D_ERRSTAT,
        V3D_DBGE,
        V3D_SQRSV0,
        V3D_SQRSV1,
        V3D_CT00RA0,
        V3D_BPOA,
        V3D_BPOS,
        V3D_BXCF,
        V3D_VPACNTL,
        V3D_VPMBASE,
    ]
}

/// The values of the diagnostic registers.
pub open spec fn status_in(values: Seq<u32>) -> DebugStatus {
    DebugStatus {
        ct0ca: values[0],
        ct1ca: values[1],
        ct0cs: values[2],
        ct1cs: values[3],
        pcs: values[4],
        bfc: values[5],
        rfc: values[6],
        fdbgo: values[7],
        fdbgb: values[8],
        bpca: values[9],
        bpcs: values[10],
        ct0lc: values[11],
        ct1lc: values[12],
        ct0pc: values[13],
        ct1pc: values[14],
        errstat: values[15],
        dbge: values[16],
        sqrsv0: values[17],
        sqrsv1: values[18],
        ct00ra0: values[19],
        bpoa: values[20],
        bpos: values[21],
        bxcf: values[22],
        vpacntl: values[23],
        vpmbase: values[24],
    }
}

/// Read registers in turn, from a place on, having read some values.
pub open spec fn read_all_program(offsets: Seq<u32>, values: Seq<u32>) -> RegProgram<Seq<u32>>
    decreases offsets.len() - values.len(),
{
    if values.len() >= offsets.len() {
        Program::Return(values)
    } else {
        registers::then_read(
            offsets[values.len() as int],
            |value: u32| read_all_program(offsets, values.push(value)),
        )
    }
}

/// Wait until an executor has stopped.
pub open spec fn wait_program(
    status: u32,
    on_error: Error,
    on_timeout: Error,
    looks: nat,
) -> RegProgram<Result<(), Error>>
    decreases looks,
{
    if looks == 0 {
        Program::Return(Err(on_timeout))
    } else {
        registers::then_read(
            status,
            |value: u32|
                if value & CTRUN == 0 {
                    Program::Return(
                        if value & CTERR != 0 {
                            Err(on_error)
                        } else {
                            Ok(())
                        },
                    )
                } else {
                    wait_program(status, on_error, on_timeout, (looks - 1) as nat)
                },
        )
    }
}

/// Wait until the number of flushes has changed.
pub open spec fn flushed_program(before: u32, looks: nat) -> RegProgram<Result<(), Error>>
    decreases looks,
{
    if looks == 0 {
        Program::Return(Err(Error::BinFlushTimeout))
    } else {
        registers::then_read(
            V3D_BFC,
            |value: u32|
                if value % 256 != before {
                    Program::Return(Ok(()))
                } else {
                    flushed_program(before, (looks - 1) as nat)
                },
        )
    }
}

/// Run the binning pass over a control list: clear the caches, start the executor,
/// wait for it to stop, and for the tile lists to reach memory.
pub open spec fn bin_program(start: u32, end: u32) -> RegProgram<Result<(), Error>> {
    registers::then_write(
        V3D_L2CACTL,
        L2CCLR,
        registers::then_write(
            V3D_SLCACTL,
            SLCACTL_CLEAR_ALL,
            registers::then_read(
                V3D_BFC,
                |count: u32|
                    registers::then_write(
                        CT0CA,
                        start,
                        registers::then_write(
                            CT0EA,
                            end,
                            wait_program(
                                CT0CS,
                                Error::BinFailed,
                                Error::BinTimeout,
                                WAIT_TIMEOUT_ITERATIONS as nat,
                            ).bind(
                                |stopped: Result<(), Error>|
                                    match stopped {
                                        Err(error) => Program::Return(Err(error)),
                                        Ok(_) => flushed_program(
                                            count % 256,
                                            WAIT_TIMEOUT_ITERATIONS as nat,
                                        ),
                                    },
                            ),
                        ),
                    ),
            ),
        ),
    )
}

/// Run the render pass over a control list: clear the texture caches, start the
/// executor, and wait for it to stop.
pub open spec fn render_program(start: u32, end: u32) -> RegProgram<Result<(), Error>> {
    registers::then_write(
        V3D_L2CACTL,
        L2CCLR,
        registers::then_write(
            V3D_SLCACTL,
            SLCACTL_CLEAR_TEXTURE,
            registers::then_write(
                CT1CA,
                start,
                registers::then_write(
                    CT1EA,
                    end,
                    wait_program(
                        CT1CS,
                        Error::RenderFailed,
                        Error::RenderTimeout,
                        WAIT_TIMEOUT_ITERATIONS as nat,
                    ),
                ),
            ),
        ),
    )
}

/// Run the binning pass, and unless it fails, the render pass.
pub open spec fn frame_program(bin: (u32, u32), render: (u32, u32)) -> RegProgram<
    Result<(), Error>,
> {
    bin_program(bin.0, bin.1).bind(
        |binned: Result<(), Error>|
            match binned {
                Err(error) => Program::Return(Err(error)),
                Ok(_) => render_program(render.0, render.1),
            },
    )
}

/// The executor was seen to have stopped without an error.
pub open spec fn seen_stopped(history: RegHistory, status: u32) -> bool {
    history.len() > 0 && history.last().request == Access::Read(status) && history.last().answer
        & CTRUN == 0 && history.last().answer & CTERR == 0
}

proof fn lemma_waited(
    status: u32,
    on_error: Error,
    on_timeout: Error,
    looks: nat,
    history: RegHistory,
)
    requires
        wait_program(status, on_error, on_timeout, looks).after(history) == RegProgram::<
            Result<(), Error>,
        >::Return(Ok(())),
    ensures
        seen_stopped(history, status),
    decreases looks,
{
    reveal_with_fuel(Program::after, 2);
    if history.len() > 1 {
        let rest = history.skip(1);
        assert(rest.len() > 0 ==> rest.last() == history.last());
        if looks > 0 && history[0].answer & CTRUN != 0 {
            lemma_waited(status, on_error, on_timeout, (looks - 1) as nat, rest);
        }
    } else if history.len() == 1 {
        let rest = history.skip(1);
        if looks > 0 && history[0].answer & CTRUN != 0 {
            lemma_waited(status, on_error, on_timeout, (looks - 1) as nat, rest);
        }
    }
}

proof fn lemma_flushed(before: u32, looks: nat, history: RegHistory)
    requires
        flushed_program(before, looks).after(history) == RegProgram::<Result<(), Error>>::Return(
            Ok(()),
        ),
    ensures
        history.len() > 0,
        history.last().request == Access::Read(V3D_BFC),
        history.last().answer % 256 != before,
    decreases looks,
{
    reveal_with_fuel(Program::after, 2);
    if history.len() > 0 && looks > 0 {
        let rest = history.skip(1);
        assert(rest.len() > 0 ==> rest.last() == history.last());
        if history[0].answer % 256 == before {
            lemma_flushed(before, (looks - 1) as nat, rest);
        }
    }
}

/// A binning pass succeeds only if its executor was seen to have stopped without an
/// error, and the number of flushes was seen to have changed after that: the tile lists
/// are in memory.
pub proof fn law_binning_is_finished(start: u32, end: u32, before: RegHistory, after: RegHistory)
    requires
        bin_program(start, end).ran(before, after, Ok(())),
    ensures
        ({
            let history = after.skip(before.len() as int);
            &&& history.len() > 5
            &&& history[2].request == Access::Read(V3D_BFC)
            &&& history.last().request == Access::Read(V3D_BFC)
            &&& history.last().answer % 256 != history[2].answer % 256
            &&& exists|stop: int|
                5 < stop < history.len() && seen_stopped(#[trigger] history.take(stop), CT0CS)
        }),
{
    let history = after.skip(before.len() as int);
    reveal_with_fuel(Program::after, 7);
    let count = history[2].answer;
    let wait = wait_program(
        CT0CS,
        Error::BinFailed,
        Error::BinTimeout,
        WAIT_TIMEOUT_ITERATIONS as nat,
    );
    let rest = |stopped: Result<(), Error>|
        match stopped {
            Err(error) => Program::Return(Err(error)),
            Ok(_) => flushed_program(count % 256, WAIT_TIMEOUT_ITERATIONS as nat),
        };
    let tail = history.skip(1).skip(1).skip(1).skip(1).skip(1);
    assert(tail =~= history.skip(5));
    let (cut, stopped) = program::lemma_in_turn(wait, rest, tail, Ok(()));
    match stopped {
        Ok(nothing) => {
            assert(nothing == ());
        },
        Err(error) => {
            assert(rest(stopped) == RegProgram::<Result<(), Error>>::Return(Err(error)));
            assert(false);
        },
    }
    lemma_waited(
        CT0CS,
        Error::BinFailed,
        Error::BinTimeout,
        WAIT_TIMEOUT_ITERATIONS as nat,
        tail.take(cut),
    );
    lemma_flushed(count % 256, WAIT_TIMEOUT_ITERATIONS as nat, tail.skip(cut));
    assert(tail.skip(cut).last() == history.last());
    assert(history.take(cut + 5).last() == tail.take(cut).last());
    assert(seen_stopped(history.take(cut + 5), CT0CS));
}

/// A render pass succeeds only if its executor was seen to have stopped without an
/// error.
pub proof fn law_rendering_is_finished(start: u32, end: u32, before: RegHistory, after: RegHistory)
    requires
        render_program(start, end).ran(before, after, Ok(())),
    ensures
        seen_stopped(after.skip(before.len() as int), CT1CS),
{
    let history = after.skip(before.len() as int);
    reveal_with_fuel(Program::after, 6);
    let tail = history.skip(1).skip(1).skip(1).skip(1);
    assert(tail =~= history.skip(4));
    lemma_waited(
        CT1CS,
        Error::RenderFailed,
        Error::RenderTimeout,
        WAIT_TIMEOUT_ITERATIONS as nat,
        tail,
    );
    assert(tail.last() == history.last());
}

/// Have the counters count the given things, from zero.
pub open spec fn configure_program(sources: Seq<u8>) -> RegProgram<()> {
    registers::then_write(
        V3D_PCTRS0,
        (sources[0] % 32) as u32,
        registers::then_write(
            (V3D_PCTRS0 + 8) as u32,
            (sources[1] % 32) as u32,
            registers::then_write(
                (V3D_PCTRS0 + 16) as u32,
                (sources[2] % 32) as u32,
                registers::then_write(
                    (V3D_PCTRS0 + 24) as u32,
                    (sources[3] % 32) as u32,
                    registers::then_write(
                        V3D_PCTRC,
                        PCTRC_ALL,
                        registers::then_write(
                            V3D_PCTRE,
                            PCTRE_FIRST_FOUR,
                            Program::Return(()),
                        ),
                    ),
                ),
            ),
        ),
    )
}

/// The counters.
pub open spec fn counter_registers() -> Seq<u32> {
    Seq::new(4, |i: int| (V3D_PCTR0 + 8 * i) as u32)
}

/// The V3D.
pub struct V3d<R> {
    registers: RegisterBlock<R>,
}

impl<R> View for V3d<R> {
    /// What has been done to it.
    type V = RegHistory;

    closed spec fn view(&self) -> RegHistory {
        self.registers@
    }
}

impl<R: Registers> V3d<R> {
    /// Takes the V3D over. None of its vertex memory is kept for programs that are
    /// no shaders.
    pub fn new(registers: RegisterBlock<R>) -> (v3d: Self)
        ensures
            registers::then_write(V3D_VPMBASE, 0, Program::Return(())).ran(
                registers@,
                v3d@,
                (),
            ),
    {
        let mut registers = registers;
        registers.write(V3D_VPMBASE, 0);
        V3d { registers }
    }

    /// What the V3D says that it is.
    pub fn ident(&mut self) -> (words: (u32, u32, u32))
        ensures
            registers::then_read(
                IDENT0,
                |first: u32|
                    registers::then_read(
                        IDENT1,
                        |second: u32|
                            registers::then_read(
                                IDENT2,
                                |third: u32| Program::Return((first, second, third)),
                            ),
                    ),
            ).ran(old(self)@, final(self)@, words),
    {
        let first: u32 = self.registers.read(IDENT0);
        let second: u32 = self.registers.read(IDENT1);
        let third: u32 = self.registers.read(IDENT2);
        (first, second, third)
    }

    /// Runs the binning pass over the first control list, and then the render pass over
    /// the second. Each is given by its bus addresses, start and end.
    pub fn submit_frame(&mut self, bin_cl: (u32, u32), render_cl: (u32, u32)) -> (result: Result<
        (),
        Error,
    >)
        ensures
            frame_program(bin_cl, render_cl).ran(old(self)@, final(self)@, result),
    {
        match self.submit_bin(bin_cl) {
            Ok(()) => self.submit_render(render_cl),
            Err(error) => Err(error),
        }
    }

    /// Runs the binning pass over a control list.
    pub fn submit_bin(&mut self, bin_cl: (u32, u32)) -> (result: Result<(), Error>)
        ensures
            bin_program(bin_cl.0, bin_cl.1).ran(old(self)@, final(self)@, result),
    {
        let ghost whole = bin_program(bin_cl.0, bin_cl.1);
        proof {
            crate::program::begin(self@, whole);
        }
        self.registers.write(V3D_L2CACTL, L2CCLR);
        self.registers.write(V3D_SLCACTL, SLCACTL_CLEAR_ALL);
        let before: u32 = self.registers.read(V3D_BFC) % 256;
        self.registers.write(CT0CA, bin_cl.0);
        self.registers.write(CT0EA, bin_cl.1);
        match self.wait(CT0CS, Error::BinFailed, Error::BinTimeout) {
            Ok(()) => {},
            Err(error) => return Err(error),
        }
        let mut looks: u32 = WAIT_TIMEOUT_ITERATIONS;
        while looks > 0
            invariant
                whole == bin_program(bin_cl.0, bin_cl.1),
                whole.leads(old(self)@, self@, flushed_program(before, looks as nat)),
            decreases looks,
        {
            if self.registers.read(V3D_BFC) % 256 != before {
                return Ok(());
            }
            looks = looks - 1;
        }
        Err(Error::BinFlushTimeout)
    }

    /// Runs the render pass over a control list.
    pub fn submit_render(&mut self, render_cl: (u32, u32)) -> (result: Result<(), Error>)
        ensures
            render_program(render_cl.0, render_cl.1).ran(old(self)@, final(self)@, result),
    {
        self.registers.write(V3D_L2CACTL, L2CCLR);
        self.registers.write(V3D_SLCACTL, SLCACTL_CLEAR_TEXTURE);
        self.registers.write(CT1CA, render_cl.0);
        self.registers.write(CT1EA, render_cl.1);
        self.wait(CT1CS, Error::RenderFailed, Error::RenderTimeout)
    }

    fn wait(&mut self, status: u32, on_error: Error, on_timeout: Error) -> (result: Result<
        (),
        Error,
    >)
        ensures
            wait_program(status, on_error, on_timeout, WAIT_TIMEOUT_ITERATIONS as nat).ran(
                old(self)@,
                final(self)@,
                result,
            ),
    {
        let ghost whole = wait_program(
            status,
            on_error,
            on_timeout,
            WAIT_TIMEOUT_ITERATIONS as nat,
        );
        proof {
            crate::program::begin(self@, whole);
        }
        let mut looks: u32 = WAIT_TIMEOUT_ITERATIONS;
        while looks > 0
            invariant
                whole == wait_program(
                    status,
                    on_error,
                    on_timeout,
                    WAIT_TIMEOUT_ITERATIONS as nat,
                ),
                whole.leads(
                    old(self)@,
                    self@,
                    wait_program(status, on_error, on_timeout, looks as nat),
                ),
            decreases looks,
        {
            let value: u32 = self.registers.read(status);
            if value & CTRUN == 0 {
                return if value & CTERR != 0 {
                    Err(on_error)
                } else {
                    Ok(())
                };
            }
            looks = looks - 1;
        }
        Err(on_timeout)
    }

    /// Has the counters count the given things, from zero.
    pub fn configure_performance_counters(&mut self, sources: [u8; PERFORMANCE_COUNTERS])
        ensures
            configure_program(sources@).ran(old(self)@, final(self)@, ()),
    {
        self.registers.write(V3D_PCTRS0, (sources[0] % 32) as u32);
        self.registers.write(V3D_PCTRS0 + 8, (sources[1] % 32) as u32);
        self.registers.write(V3D_PCTRS0 + 16, (sources[2] % 32) as u32);
        self.registers.write(V3D_PCTRS0 + 24, (sources[3] % 32) as u32);
        self.registers.write(V3D_PCTRC, PCTRC_ALL);
        self.registers.write(V3D_PCTRE, PCTRE_FIRST_FOUR);
    }

    /// Sets every counter to zero.
    pub fn clear_performance_counters(&mut self)
        ensures
            registers::then_write(V3D_PCTRC, PCTRC_ALL, Program::Return(())).ran(
                old(self)@,
                final(self)@,
                (),
            ),
    {
        self.registers.write(V3D_PCTRC, PCTRC_ALL);
    }

    /// The counters.
    pub fn performance_counters(&mut self) -> (counts: [u32; PERFORMANCE_COUNTERS])
        ensures
            read_all_program(counter_registers(), Seq::empty()).ran(
                old(self)@,
                final(self)@,
                counts@,
            ),
    {
        let offsets: [u32; 4] = [V3D_PCTR0, V3D_PCTR0 + 8, V3D_PCTR0 + 16, V3D_PCTR0 + 24];
        assert(offsets@ =~= counter_registers());
        let values: Vec<u32> = self.read_all(&offsets);
        let counts: [u32; 4] = [values[0], values[1], values[2], values[3]];
        assert(counts@ =~= values@);
        counts
    }

    fn read_all(&mut self, offsets: &[u32]) -> (values: Vec<u32>)
        ensures
            values@.len() == offsets@.len(),
            read_all_program(offsets@, Seq::empty()).ran(old(self)@, final(self)@, values@),
    {
        let ghost whole = read_all_program(offsets@, Seq::empty());
        let mut values: Vec<u32> = Vec::new();
        proof {
            assert(values@ =~= Seq::empty());
            crate::program::begin(self@, whole);
        }
        while values.len() < offsets.len()
            invariant
                values@.len() <= offsets@.len(),
                whole == read_all_program(offsets@, Seq::empty()),
                whole.leads(old(self)@, self@, read_all_program(offsets@, values@)),
            decreases offsets@.len() - values@.len(),
        {
            let value: u32 = self.registers.read(offsets[values.len()]);
            values.push(value);
        }
        values
    }

    /// What the diagnostic registers hold.
    pub fn debug_status(&mut self) -> (status: DebugStatus)
        ensures
            read_all_program(status_registers(), Seq::empty()).bind(
                |values: Seq<u32>| Program::Return(status_in(values)),
            ).ran(old(self)@, final(self)@, status),
    {
        let offsets: [u32; 25] = [
            CT0CA,
            CT1CA,
            CT0CS,
            CT1CS,
            V3D_PCS,
            V3D_BFC,
            V3D_RFC,
            V3D_FDBGO,
            V3D_FDBGB,
            V3D_BPCA,
            V3D_BPCS,
            V3D_CT0LC,
            V3D_CT1LC,
            V3D_CT0PC,
            V3D_CT1PC,
            V3D_ERRSTAT,
            V3D_DBGE,
            V3D_SQRSV0,
            V3D_SQRSV1,
            V3D_CT00RA0,
            V3D_BPOA,
            V3D_BPOS,
            V3D_BXCF,
            V3D_VPACNTL,
            V3D_VPMBASE,
        ];
        assert(offsets@ =~= status_registers());
        let values: Vec<u32> = self.read_all(&offsets);
        DebugStatus {
            ct0ca: values[0],
            ct1ca: values[1],
            ct0cs: values[2],
            ct1cs: values[3],
            pcs: values[4],
            bfc: values[5],
            rfc: values[6],
            fdbgo: values[7],
            fdbgb: values[8],
            bpca: values[9],
            bpcs: values[10],
            ct0lc: values[11],
            ct1lc: values[12],
            ct0pc: values[13],
            ct1pc: values[14],
            errstat: values[15],
            dbge: values[16],
            sqrsv0: values[17],
            sqrsv1: values[18],
            ct00ra0: values[19],
            bpoa: values[20],
            bpos: values[21],
            bxcf: values[22],
            vpacntl: values[23],
            vpmbase: values[24],
        }
    }
}

/// An address as the V3D sees it: in the window of memory that goes past the
/// cache.
pub open spec fn on_bus(address: u32) -> u32 {
    (address % 0x4000_0000 + 0xc000_0000) as u32
}

/// What is on the bus stays where it is.
pub proof fn law_bus_window(address: u32)
    ensures
        on_bus(address) >= 0xc000_0000,
        on_bus(on_bus(address)) == on_bus(address),
{
}

/// Two addresses in the first gigabyte are not mixed up on the bus.
pub proof fn law_bus_tells_apart(one: u32, other: u32)
    requires
        one < 0x4000_0000,
        other < 0x4000_0000,
        on_bus(one) == on_bus(other),
    ensures
        one == other,
{
}

/// An address as the V3D sees it.
pub fn bus_address(physical_address: u32) -> (address: u32)
    ensures
        address == on_bus(physical_address),
{
    physical_address % 0x4000_0000 + 0xc000_0000
}

/// Work on the data cache.
pub trait CacheLines {
    /// Writes the lines of a range back to memory.
    fn clean_range(&mut self, address: u32, len: usize);

    /// Drops the lines of a range.
    fn invalidate_range(&mut self, address: u32, len: usize);
}

/// What was done to the data cache.
pub enum CacheOp {
    Clean(u32, usize),
    Invalidate(u32, usize),
}

/// What was done to the data cache, oldest first.
pub type CacheHistory = Seq<Exchange<CacheOp, ()>>;

/// The data cache, with what was done to it.
pub struct DataCache<C> {
    lines: C,
    history: Ghost<CacheHistory>,
}

impl<C> View for DataCache<C> {
    type V = CacheHistory;

    closed spec fn view(&self) -> CacheHistory {
        self.history@
    }
}

impl<C> DataCache<C> {
    /// The cache.
    pub closed spec fn inner(&self) -> C {
        self.lines
    }
}

impl<C: CacheLines> DataCache<C> {
    /// Takes the cache over; nothing has been done to it yet.
    pub fn new(lines: C) -> (cache: Self)
        ensures
            cache.inner() == lines,
            cache@ == CacheHistory::empty(),
    {
        DataCache { lines, history: Ghost(Seq::empty()) }
    }

    /// Gives the cache back.
    pub fn release(self) -> (lines: C)
        ensures
            lines == self.inner(),
    {
        self.lines
    }

    fn clean(&mut self, address: u32, len: usize)
        ensures
            final(self)@ == old(self)@.push(
                Exchange { request: CacheOp::Clean(address, len), answer: () },
            ),
            exists|asked: &mut C|
                *asked == old(self).inner() && *final(asked) == final(self).inner()
                    && #[trigger] call_ensures(C::clean_range, (asked, address, len), ()),
    {
        self.lines.clean_range(address, len);
        self.history = Ghost(
            self.history@.push(Exchange { request: CacheOp::Clean(address, len), answer: () }),
        );
    }

    fn drop_lines(&mut self, address: u32, len: usize)
        ensures
            final(self)@ == old(self)@.push(
                Exchange { request: CacheOp::Invalidate(address, len), answer: () },
            ),
            exists|asked: &mut C|
                *asked == old(self).inner() && *final(asked) == final(self).inner()
                    && #[trigger] call_ensures(C::invalidate_range, (asked, address, len), ()),
    {
        self.lines.invalidate_range(address, len);
        self.history = Ghost(
            self.history@.push(Exchange { request: CacheOp::Invalidate(address, len), answer: () }),
        );
    }
}

/// Has what was written to a buffer reach memory, for the V3D to read. `address` is
/// the buffer's own, not the one on the bus.
pub fn flush<C: CacheLines>(cache: &mut DataCache<C>, address: u32, len: usize)
    ensures
        final(cache)@ == old(cache)@.push(
            Exchange { request: CacheOp::Clean(address, len), answer: () },
        ),
{
    cache.clean(address, len);
}

/// Has what the V3D wrote to a buffer seen. `address` is the buffer's own, not the
/// one on the bus.
pub fn invalidate<C: CacheLines>(cache: &mut DataCache<C>, address: u32, len: usize)
    ensures
        final(cache)@ == old(cache)@.push(
            Exchange { request: CacheOp::Invalidate(address, len), answer: () },
        ),
{
    cache.drop_lines(address, len);
}

/// Memory that the V3D reads or writes. Where it is, its owner knows.
pub struct GpuBuffer<const BYTES: usize> {
    bytes: [u8; BYTES],
}

impl<const BYTES: usize> View for GpuBuffer<BYTES> {
    type V = Seq<u8>;

    closed spec fn view(&self) -> Seq<u8> {
        self.bytes@
    }
}

impl<const BYTES: usize> GpuBuffer<BYTES> {
    /// A buffer of zeros.
    pub fn new() -> (buffer: Self)
        ensures
            buffer@ == Seq::new(BYTES as nat, |i: int| 0u8),
    {
        let buffer = GpuBuffer { bytes: [0u8;BYTES] };
        assert(buffer@ =~= Seq::new(BYTES as nat, |i: int| 0u8));
        buffer
    }

    /// The address of a buffer that is at `address`, as the V3D sees it.
    pub fn bus_address(&self, address: u32) -> (on_the_bus: u32)
        ensures
            on_the_bus == on_bus(address),
    {
        bus_address(address)
    }

    /// What is in the buffer, to write to.
    pub fn as_bytes_mut(&mut self) -> (bytes: &mut [u8])
        ensures
            bytes@ == old(self)@,
            final(bytes)@.len() == BYTES ==> final(self)@ == final(bytes)@,
    {
        &mut self.bytes
    }

    /// What is in the buffer.
    pub fn as_bytes(&self) -> (bytes: &[u8])
        ensures
            bytes@ == self@,
    {
        self.bytes.as_slice()
    }

    /// Has what was written to a buffer that is at `address` reach memory.
    pub fn flush<C: CacheLines>(&self, cache: &mut DataCache<C>, address: u32)
        ensures
            final(cache)@ == old(cache)@.push(
                Exchange { request: CacheOp::Clean(address, BYTES), answer: () },
            ),
    {
        flush(cache, address, BYTES);
    }

    /// Has what the V3D wrote to a buffer that is at `address` seen.
    pub fn invalidate<C: CacheLines>(&self, cache: &mut DataCache<C>, address: u32)
        ensures
            final(cache)@ == old(cache)@.push(
                Exchange { request: CacheOp::Invalidate(address, BYTES), answer: () },
            ),
    {
        invalidate(cache, address, BYTES);
    }
}

impl<const BYTES: usize> Default for GpuBuffer<BYTES> {
    fn default() -> (buffer: Self)
        ensures
            buffer@ == Seq::new(BYTES as nat, |i: int| 0u8),
    {
        GpuBuffer::new()
    }
}

} // verus!
