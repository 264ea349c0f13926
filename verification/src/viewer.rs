//! The terminal consumer's scroll state and the arithmetic that picks which
//! lines are on screen.

use vstd::prelude::*;

verus! {

/// Scroll state of the interactive viewer.
#[derive(Debug)]
pub struct App {
    /// Whether the view tracks the newest lines.
    pub follow_mode: bool,
    /// The first visible line when not following.
    pub scroll_offset: usize,
    /// Whether the user asked to quit.
    pub should_quit: bool,
}

impl App {
    /// A fresh viewer: following the stream from the top.
    pub fn new() -> (r: App)
        ensures
            r.follow_mode,
            r.scroll_offset == 0,
            !r.should_quit,
    {
        App { follow_mode: true, scroll_offset: 0, should_quit: false }
    }

    /// Switch between following the stream and free scrolling.
    pub fn toggle_follow_mode(&mut self)
        ensures
            final(self).follow_mode == !old(self).follow_mode,
            final(self).scroll_offset == old(self).scroll_offset,
            final(self).should_quit == old(self).should_quit,
    {
        self.follow_mode = !self.follow_mode;
    }

    /// Scroll one line up and leave follow mode; at the top nothing moves.
    pub fn scroll_up(&mut self)
        ensures
            old(self).scroll_offset > 0 ==> final(self).scroll_offset
                == old(self).scroll_offset - 1 && !final(self).follow_mode,
            old(self).scroll_offset == 0 ==> *final(self) == *old(self),
            final(self).should_quit == old(self).should_quit,
    {
        if self.scroll_offset > 0 {
            self.scroll_offset = self.scroll_offset - 1;
            self.follow_mode = false;
        }
    }

    /// Scroll one line down and leave follow mode.
    pub fn scroll_down(&mut self)
        ensures
            old(self).scroll_offset < usize::MAX ==> final(self).scroll_offset
                == old(self).scroll_offset + 1,
            old(self).scroll_offset == usize::MAX ==> final(self).scroll_offset
                == usize::MAX,
            !final(self).follow_mode,
            final(self).should_quit == old(self).should_quit,
    {
        if self.scroll_offset < usize::MAX {
            self.scroll_offset = self.scroll_offset + 1;
        }
        self.follow_mode = false;
    }

    /// Jump back to the newest lines and resume following.
    pub fn scroll_to_bottom(&mut self)
        ensures
            final(self).follow_mode,
            final(self).scroll_offset == 0,
            final(self).should_quit == old(self).should_quit,
    {
        self.follow_mode = true;
        self.scroll_offset = 0;
    }
}

/// The window of lines to draw: following shows the last `height` lines,
/// scrolling shows `height` lines from the offset, both clamped to what
/// exists.
pub fn visible_range(total_lines: usize, height: usize, follow_mode: bool, scroll_offset: usize)
    -> (r: (usize, usize))
    ensures
        r.0 <= r.1 <= total_lines,
        follow_mode ==> r.1 == total_lines
            && r.0 == if height < total_lines { (total_lines - height) as int } else { 0 },
        !follow_mode ==> r.0 == if scroll_offset < total_lines {
            scroll_offset as int
        } else {
            total_lines as int
        } && r.1 == if scroll_offset + height < total_lines {
            scroll_offset + height
        } else {
            total_lines as int
        },
{
    if follow_mode {
        let start = if height < total_lines {
            total_lines - height
        } else {
            0
        };
        (start, total_lines)
    } else {
        let start = if scroll_offset < total_lines {
            scroll_offset
        } else {
            total_lines
        };
        let avail = total_lines - start;
        let take = if height < avail {
            height
        } else {
            avail
        };
        (start, start + take)
    }
}

} // verus!
