//! A rectangle of given width and height, and the host-facing handle on it.
use vstd::prelude::*;

verus! {

pub struct Universe {
    width: u32,
    height: u32,
}

impl View for Universe {
    /// Width and height.
    type V = (u32, u32);

    closed spec fn view(&self) -> (u32, u32) {
        (self.width, self.height)
    }
}

impl Universe {
    pub fn new(width: u32, height: u32) -> (r: Universe)
        ensures
            r@ == (width, height),
    {
        Universe { width, height }
    }

    /// Width times height, where the product fits in a `u32`.
    pub fn get_area(&self) -> (r: u32)
        requires
            self@.0 * self@.1 <= u32::MAX,
        ensures
            r == self@.0 * self@.1,
    {
        self.width * self.height
    }

    /// The area, or `None` where it does not fit in a `u32`.
    pub fn checked_area(&self) -> (r: Option<u32>)
        ensures
            r == if self@.0 * self@.1 <= u32::MAX {
                Some((self@.0 * self@.1) as u32)
            } else {
                None::<u32>
            },
    {
        let w = self.width as u64;
        let h = self.height as u64;
        assert(w * h <= u32::MAX as u64 * u32::MAX as u64) by (nonlinear_arith)
            requires
                w <= u32::MAX,
                h <= u32::MAX,
        ;
        let area = w * h;
        if area <= u32::MAX as u64 {
            Some(self.get_area())
        } else {
            None
        }
    }
}

/// The handle a host runtime holds on a universe.
pub struct WasmUniverse {
    universe: Universe,
}

impl WasmUniverse {
    pub fn new(width: u32, height: u32) -> (r: WasmUniverse)
        ensures
            r.universe()@ == (width, height),
    {
        WasmUniverse { universe: Universe::new(width, height) }
    }

    pub closed spec fn universe(&self) -> Universe {
        self.universe
    }

    /// The universe behind the handle.
    pub fn get_universe(&self) -> (r: &Universe)
        ensures
            *r == self.universe(),
    {
        &self.universe
    }
}

} // verus!
