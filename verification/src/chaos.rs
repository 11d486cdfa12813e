use vstd::prelude::*;
use crate::os::Os;
use crate::scheduler::Scheduler;
use crate::systick::{self, slice_ticks};
use crate::task::Task;

verus! {

/// The number of SysTick counts in 10 ms: the value calibrated by the
/// hardware, or, where the hardware reports none (zero), one derived from
/// the frequency of the bus that drives the timer.
pub open spec fn ticks_for_10ms_spec(calibrated: u32, ahb_freq: u32) -> u32 {
    if calibrated == 0 {
        (ahb_freq / 100) as u32
    } else {
        calibrated
    }
}

/// The hardware calibration decides the SysTick counts in 10 ms whenever
/// it is there, whatever the bus frequency; the bus frequency, which drives
/// SysTick, decides them only where the calibration is zero, as a hundredth
/// of it (the counts in 10 ms at that frequency).
pub proof fn lemma_calibration_first(calibrated: u32, ahb_freq: u32)
    ensures
        calibrated != 0 ==> ticks_for_10ms_spec(calibrated, ahb_freq) == calibrated,
        forall|other: u32| #![auto] calibrated != 0 ==> ticks_for_10ms_spec(calibrated, ahb_freq)
            == ticks_for_10ms_spec(calibrated, other),
        calibrated == 0 ==> ticks_for_10ms_spec(calibrated, ahb_freq) * 100 <= ahb_freq
            < (ticks_for_10ms_spec(calibrated, ahb_freq) + 1) * 100,
{
}

/// The operating system: a scheduler over `N` tasks and the timer setting
/// of its time slice.
pub struct ChaOS<S: Scheduler<N>, const N: usize> {
    scheduler: S,
    ahb_freq: u32,
    ticks_for_10ms: u32,
}

impl<S: Scheduler<N>, const N: usize> ChaOS<S, N> {
    /// The scheduler.
    pub closed spec fn sched(&self) -> S {
        self.scheduler
    }

    /// The bus frequency the system was set up with.
    pub closed spec fn ahb(&self) -> u32 {
        self.ahb_freq
    }

    /// The number of SysTick counts in 10 ms.
    pub closed spec fn ticks(&self) -> u32 {
        self.ticks_for_10ms
    }

    /// The time slice of the system, in SysTick counts, is its scheduler's
    /// time slice in microseconds times the counts in 10 000 us, over 10 000.
    pub proof fn lemma_slice_ticks(&self)
        ensures
            self.slice_ticks() == slice_ticks(self.sched().quanta(), self.ticks()),
    {
    }

    /// The system starts and switches to the tasks its scheduler chooses,
    /// and its task table is the scheduler's.
    pub proof fn lemma_scheduler_targets(&self)
        ensures
            self.start_target() == self.sched().start_target(),
            self.switch_target() == self.sched().switch_target(),
            self.task_seq() == self.sched().task_seq(),
            self.current() == self.sched().current(),
            self.wf() == self.sched().wf(),
    {
    }

    /// Whether the time slice, in SysTick counts, fits the 32-bit reload
    /// computation: at least one count, and no more than `u32::MAX`.
    pub fn timer_reload_fits(&self) -> (b: bool)
        ensures
            b == (1 <= self.slice_ticks() <= u32::MAX),
    {
        let ticks: u64 = systick::timer_counts(self.scheduler.get_quanta_us(), self.ticks_for_10ms);
        1 <= ticks && ticks <= u32::MAX as u64
    }

    /// Sets the system up with `scheduler`; `calibrated_ticks` is the SysTick
    /// calibration value read from the hardware (zero where it has none),
    /// `ahb_freq` the frequency of the bus that drives the timer.
    pub fn init(scheduler: S, ahb_freq: u32, calibrated_ticks: u32) -> (os: Self)
        ensures
            os.sched() == scheduler,
            os.wf() == scheduler.wf(),
            os.ahb() == ahb_freq,
            os.ticks() == ticks_for_10ms_spec(calibrated_ticks, ahb_freq),
            calibrated_ticks != 0 ==> os.ticks() == calibrated_ticks,
            calibrated_ticks == 0 ==> os.ticks() == ahb_freq / 100,
            calibrated_ticks != 0 ==> os.slice_ticks() == (scheduler.quanta() * calibrated_ticks) / 10_000,
    {
        let ticks_for_10ms = match calibrated_ticks {
            0 => ahb_freq / 100,
            x => x,
        };
        ChaOS { scheduler, ahb_freq, ticks_for_10ms }
    }
}

impl<S: Scheduler<N>, const N: usize> Os for ChaOS<S, N> {
    closed spec fn task_seq(&self) -> Seq<Task> {
        self.scheduler.task_seq()
    }

    closed spec fn current(&self) -> int {
        self.scheduler.current()
    }

    closed spec fn wf(&self) -> bool {
        self.scheduler.wf()
    }

    closed spec fn start_target(&self) -> Option<int> {
        self.scheduler.start_target()
    }

    closed spec fn switch_target(&self) -> Option<int> {
        self.scheduler.switch_target()
    }

    closed spec fn slice_ticks(&self) -> int {
        slice_ticks(self.scheduler.quanta(), self.ticks_for_10ms)
    }

    fn reset_timer(&mut self) -> (reload: u32)
        ensures
            *final(self) == *old(self),
    {
        systick::reset_timer(self.scheduler.get_quanta_us(), self.ticks_for_10ms)
    }

    fn get_initial_task_regs(&mut self) -> (r: Option<(u32, u32, u32)>) {
        self.scheduler.get_initial_task_regs()
    }

    fn get_switch_pair(&mut self) -> (r: Option<(usize, usize)>) {
        self.scheduler.get_switch_pair()
    }

    fn get_task(&self, idx: usize) -> (t: Task) {
        self.scheduler.get_task(idx)
    }

    fn set_task(&mut self, idx: usize, t: Task) {
        self.scheduler.set_task(idx, t)
    }
}

} // verus!
