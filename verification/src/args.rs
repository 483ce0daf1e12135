use vstd::prelude::*;

use crate::obj::Palette;

verus! {

/// What a run is asked to do.
#[derive(Clone, Debug, PartialEq, Eq)]
pub struct Args {
    /// Path of the image to read.
    pub rompath: String,
    /// Directory that the output goes to.
    pub outpath: String,
    /// Number of the master palette to draw with.
    pub palette: usize,
    /// Whether to print what is read.
    pub debug: bool,
    /// Whether to leave out the bitmaps of the single records.
    pub no_spi1: bool,
}

impl Args {
    /// The master palette that was asked for, if the image has it.
    pub fn pick_palette<'a>(&self, palettes: &'a Vec<Palette>) -> (r: Option<&'a Palette>)
        ensures
            self.palette < palettes@.len() ==> r == Some(&palettes@[self.palette as int]),
            self.palette >= palettes@.len() ==> r is None,
    {
        if self.palette < palettes.len() {
            Some(&palettes[self.palette])
        } else {
            None
        }
    }

    /// Whether the bitmaps of the single records are wanted.
    pub fn wants_spi1(&self) -> (b: bool)
        ensures
            b == !self.no_spi1,
    {
        !self.no_spi1
    }
}

} // verus!
