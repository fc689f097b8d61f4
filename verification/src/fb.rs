//! The framebuffer and who may draw on it.
//!
//! After boot the console owns the screen (owner 0).  A task may take the
//! screen over only while the console owns it, and gives it back with
//! `release_if_owner`; `force_console` hands it back unconditionally.  Until
//! the framebuffer is set up nobody owns it (`usize::MAX`).

use vstd::prelude::*;

verus! {

/// Owner value meaning the text console draws.
pub const CONSOLE: usize = 0;

/// Owner value meaning the framebuffer is not set up.
pub const UNOWNED: usize = usize::MAX;

/// Geometry of the linear framebuffer: base address, size in pixels, bytes
/// per row and bits per pixel.
#[derive(Copy, Clone, PartialEq, Eq, Structural, Debug)]
pub struct FbInfo {
    pub addr: usize,
    pub width: usize,
    pub height: usize,
    pub pitch: usize,
    pub bpp: usize,
}

/// The framebuffer geometry, once known, and its current owner.
pub struct Framebuffer {
    info: Option<FbInfo>,
    owner: usize,
}

/// The framebuffer as values.
pub struct FbState {
    pub info: Option<FbInfo>,
    pub owner: usize,
}

/// Owner after task `t` tries to take the screen.
pub open spec fn owner_after_acquire(owner: usize, t: u64) -> usize {
    if owner == CONSOLE { t as usize } else { owner }
}

/// Owner after task `t` gives the screen back.
pub open spec fn owner_after_release(owner: usize, t: u64) -> usize {
    if owner == t as usize { CONSOLE } else { owner }
}

/// A task that takes the screen from the console and gives it back leaves
/// it with the console.
pub proof fn law_acquire_release_round_trip(t: u64)
    ensures
        owner_after_release(owner_after_acquire(CONSOLE, t), t) == CONSOLE,
{
}

/// While a task owns the screen, no other task can take it or give it back.
pub proof fn law_owner_exclusive(t1: u64, t2: u64)
    requires
        t1 as usize != CONSOLE,
        t1 as usize != t2 as usize,
    ensures
        owner_after_acquire(owner_after_acquire(CONSOLE, t1), t2) == t1 as usize,
        owner_after_release(owner_after_acquire(CONSOLE, t1), t2) == t1 as usize,
{
}

impl Framebuffer {
    pub closed spec fn view(&self) -> FbState {
        FbState { info: self.info, owner: self.owner }
    }

    /// Not set up, owned by nobody.
    pub fn new() -> (r: Self)
        ensures
            r@.info is None,
            r@.owner == UNOWNED,
    {
        Framebuffer { info: None, owner: UNOWNED }
    }

    /// Records the geometry (only the first call does) and gives the screen
    /// to the console.
    pub fn init(&mut self, info: FbInfo)
        ensures
            old(self)@.info is None ==> final(self)@.info == Some(info),
            old(self)@.info is Some ==> final(self)@.info == old(self)@.info,
            final(self)@.owner == CONSOLE,
    {
        if self.info.is_none() {
            self.info = Some(info);
        }
        self.owner = CONSOLE;
    }

    /// The geometry; the framebuffer must be set up.
    pub fn info(&self) -> (r: FbInfo)
        requires
            self@.info is Some,
        ensures
            self@.info == Some(r),
    {
        self.info.unwrap()
    }

    /// Task `task_id` takes the screen if the console owns it, and gets the
    /// geometry; otherwise nothing changes and `None` comes back.
    pub fn acquire(&mut self, task_id: u64) -> (r: Option<FbInfo>)
        requires
            old(self)@.owner == CONSOLE ==> old(self)@.info is Some,
        ensures
            final(self)@.info == old(self)@.info,
            final(self)@.owner == owner_after_acquire(old(self)@.owner, task_id),
            old(self)@.owner == CONSOLE ==> r == old(self)@.info,
            old(self)@.owner != CONSOLE ==> r is None,
    {
        if self.owner == CONSOLE {
            self.owner = task_id as usize;
            Some(self.info.unwrap())
        } else {
            None
        }
    }

    /// Task `task_id` gives the screen back to the console, if it owns it.
    pub fn release_if_owner(&mut self, task_id: u64)
        ensures
            final(self)@.info == old(self)@.info,
            final(self)@.owner == owner_after_release(old(self)@.owner, task_id),
    {
        if self.owner == task_id as usize {
            self.owner = CONSOLE;
        }
    }

    /// The console takes the screen back whoever owns it.
    pub fn force_console(&mut self)
        ensures
            final(self)@.info == old(self)@.info,
            final(self)@.owner == CONSOLE,
    {
        self.owner = CONSOLE;
    }

    /// Whether the geometry has been recorded.
    pub fn is_set_up(&self) -> (r: bool)
        ensures
            r == self@.info is Some,
    {
        self.info.is_some()
    }

    /// The current owner.
    pub fn owner(&self) -> (r: usize)
        ensures
            r == self@.owner,
    {
        self.owner
    }

    /// The console may draw: it owns the screen.
    pub fn console_owns(&self) -> (r: bool)
        ensures
            r == (self@.owner == CONSOLE),
    {
        self.owner == CONSOLE
    }
}

/// Byte offset of pixel (`x`, `y`).
pub open spec fn spec_pixel_offset(info: FbInfo, x: int, y: int) -> int {
    y * info.pitch + x * (info.bpp / 8)
}

/// Byte offset of pixel (`x`, `y`) in the framebuffer.
pub fn pixel_offset(info: FbInfo, x: usize, y: usize) -> (r: usize)
    requires
        spec_pixel_offset(info, x as int, y as int) <= usize::MAX,
    ensures
        r == spec_pixel_offset(info, x as int, y as int),
{
    proof {
        let a = y * info.pitch;
        let b = x * (info.bpp / 8);
        assert(0 <= a && 0 <= b) by (nonlinear_arith)
            requires a == y * info.pitch, b == x * (info.bpp / 8);
    }
    y * info.pitch + x * (info.bpp / 8)
}

} // verus!
