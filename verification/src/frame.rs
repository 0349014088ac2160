use vstd::prelude::*;

verus! {

/// One rendered frame of a character display.
pub struct Frame {
    pub display_width: usize,
    pub display_height: usize,
    pub display_contents: Vec<char>,
}

impl Frame {
    pub fn create_frame(width: usize, height: usize, display_contents: Vec<char>) -> (r: Frame)
        ensures
            r.display_width == width,
            r.display_height == height,
            r.display_contents@ == display_contents@,
    {
        Frame { display_width: width, display_height: height, display_contents }
    }

    pub fn get_width(&self) -> (r: usize)
        ensures
            r == self.display_width,
    {
        self.display_width
    }

    pub fn get_height(&self) -> (r: usize)
        ensures
            r == self.display_height,
    {
        self.display_height
    }

    /// Takes the contents out, leaving an empty frame behind.
    pub fn get_display_content(&mut self) -> (r: Vec<char>)
        ensures
            r@ == old(self).display_contents@,
            final(self).display_contents@.len() == 0,
            final(self).display_width == old(self).display_width,
            final(self).display_height == old(self).display_height,
    {
        let mut taken: Vec<char> = Vec::new();
        core::mem::swap(&mut taken, &mut self.display_contents);
        taken
    }
}

/// Anything that can draw itself into a frame.
pub trait Renderable {
    fn render_frame(&self) -> Frame;
}

} // verus!
