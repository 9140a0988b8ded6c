//! The switches of the command line, and what they make the program do with
//! a finished mosaic.

use vstd::prelude::*;

verus! {

/// Edge of the box, in pixels, that a resized mosaic fits in.
pub const RESIZE_EDGE: u32 = 5120;

/// Seconds to wait before the next snapshot is fetched.
pub const PAUSE_SECONDS: u64 = 601;

/// The switches of the command line.
#[derive(Debug, Clone)]
pub struct Cli {
    /// Show nothing but the progress bar.
    pub quiet: bool,
    /// Log what goes on.
    pub verbose: bool,
    /// A directory for finished mosaics, in place of the configured one.
    pub completed_dir: Option<String>,
    /// The path of the configuration file.
    pub config_file: Option<String>,
    /// Resize the mosaic once it is finished.
    pub resize: bool,
    /// Open the mosaic once it is finished.
    pub open: bool,
    /// Fetch the snapshot of this moment, `YYYY-MM-DD HH:MM`, and stop.
    pub oneshot: Option<String>,
}

/// One thing done with a finished mosaic.
#[derive(Debug, PartialEq, Eq, Clone, Copy, Structural)]
pub enum Step {
    /// Scale the image down to fit a box of this width and height.
    Resize { width: u32, height: u32 },
    /// Make the image the desktop background.
    SetWallpaper,
    /// Open the image in the viewer of the desktop.
    Open,
    /// Copy the file to the backup directory.
    Backup,
    /// Wait this many seconds.
    Pause { seconds: u64 },
}

impl Cli {
    /// What is done with a finished mosaic, in order. The image is resized
    /// first where that was asked for. For one snapshot only it is then
    /// opened; else it becomes the desktop background, is backed up, and the
    /// program waits for the next snapshot.
    pub open spec fn plan(self) -> Seq<Step> {
        let first = if self.resize {
            seq![Step::Resize { width: 5120, height: 5120 }]
        } else {
            Seq::<Step>::empty()
        };
        if self.oneshot is Some {
            first + seq![Step::Open]
        } else {
            first + seq![Step::SetWallpaper, Step::Backup, Step::Pause { seconds: 601 }]
        }
    }

    /// Whether one snapshot only is asked for.
    pub fn is_oneshot(&self) -> (one: bool)
        ensures
            one == (self.oneshot is Some),
    {
        self.oneshot.is_some()
    }

    /// Lists what is done with a finished mosaic, in order.
    pub fn steps_after_assembly(&self) -> (steps: Vec<Step>)
        ensures
            steps@ == self.plan(),
    {
        let mut steps: Vec<Step> = Vec::new();
        if self.resize {
            steps.push(Step::Resize { width: RESIZE_EDGE, height: RESIZE_EDGE });
        }
        if self.oneshot.is_some() {
            steps.push(Step::Open);
        } else {
            steps.push(Step::SetWallpaper);
            steps.push(Step::Backup);
            steps.push(Step::Pause { seconds: PAUSE_SECONDS });
        }
        assert(steps@ =~= self.plan());
        steps
    }
}

impl Default for Cli {
    /// The switches as they stand when none is given: quiet, nothing else.
    fn default() -> (cli: Self)
        ensures
            cli.quiet,
            !cli.verbose,
            !cli.resize,
            !cli.open,
            cli.completed_dir is None,
            cli.config_file is None,
            cli.oneshot is None,
    {
        Cli {
            quiet: true,
            verbose: false,
            completed_dir: None,
            config_file: None,
            resize: false,
            open: false,
            oneshot: None,
        }
    }
}

} // verus!
