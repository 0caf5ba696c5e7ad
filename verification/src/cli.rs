//! The command surface of the tool, as plain data: the three subcommands
//! with their options, and the selectors the driver reads off them.
//! Argument parsing itself happens outside; the logic here answers, for a
//! parsed invocation, how the cut list is to be obtained, which
//! credentials were given, and which recordings are named.

use vstd::prelude::*;

use crate::cutlist::AccessType;

verus! {

/// The parsed command line: a subcommand and the global flags.
pub struct Args {
    /// The chosen subcommand.
    pub command: Commands,
    /// How often the verbosity flag was given.
    pub verbose: u8,
    /// Whether all output was switched off.
    pub quiet: bool,
}

/// The subcommands of the tool.
pub enum Commands {
    /// Cut one recording.
    Cut {
        /// A bracket-syntax intervals string, when given.
        intervals: Option<Vec<u8>>,
        /// A cut-list file path, when given.
        file: Option<Vec<u8>>,
        /// A provider-side cut-list identifier, when given.
        id: Option<u64>,
        /// The rating for a submitted cut list, when given.
        rating: Option<u8>,
        /// The least accepted provider rating, when given.
        min_rating: Option<u8>,
        /// The recording to cut.
        video: Vec<u8>,
    },
    /// Decode one recording.
    Decode {
        /// The service user, when given.
        user: Option<Vec<u8>>,
        /// The service password, when given.
        password: Option<Vec<u8>>,
        /// The recording to decode.
        video: Vec<u8>,
    },
    /// Decode and cut all discovered recordings.
    Process {
        /// The service user, when given.
        user: Option<Vec<u8>>,
        /// The service password, when given.
        password: Option<Vec<u8>>,
        /// The least accepted provider rating, when given.
        min_rating: Option<u8>,
        /// The recordings to process; empty to scan the working tree.
        videos: Vec<Vec<u8>>,
    },
}

impl Args {
    /// How the cut list is to be obtained: for the cut subcommand the
    /// explicit intervals win over a file, a file over an identifier, and
    /// without any of them the provider picks automatically; processing
    /// always selects automatically. The decode subcommand has no cut
    /// list.
    pub fn cutlist_access_type(&self) -> (r: AccessType)
        requires
            !(self.command matches Commands::Decode { .. }),
        ensures
            match &self.command {
                Commands::Cut { intervals, file, id, .. } => match (intervals, file, id) {
                    (Some(s), _, _) => r matches AccessType::Direct(d) && d@ == s@,
                    (None, Some(f), _) => r matches AccessType::File(p) && p@ == f@,
                    (None, None, Some(n)) => r matches AccessType::ID(m) && m == n,
                    (None, None, None) => r is Auto,
                },
                Commands::Decode { .. } => true,
                Commands::Process { .. } => r is Auto,
            },
    {
        match &self.command {
            Commands::Cut { intervals, file, id, .. } => {
                if let Some(s) = intervals {
                    AccessType::Direct(crate::text::sub_vec(s.as_slice(), 0, s.len()))
                } else if let Some(f) = file {
                    AccessType::File(crate::text::sub_vec(f.as_slice(), 0, f.len()))
                } else if let Some(n) = id {
                    AccessType::ID(*n)
                } else {
                    AccessType::Auto
                }
            },
            Commands::Decode { .. } => AccessType::Auto,
            Commands::Process { .. } => AccessType::Auto,
        }
    }

    /// The credentials given on the command line; the cut subcommand
    /// carries none.
    pub fn otr_access_data(&self) -> (r: Option<(Vec<u8>, Vec<u8>)>)
        requires
            !(self.command matches Commands::Cut { .. }),
        ensures
            match &self.command {
                Commands::Cut { .. } => true,
                Commands::Decode { user, password, .. } | Commands::Process {
                    user,
                    password,
                    ..
                } => match (user, password) {
                    (Some(u), Some(p)) => r matches Some(c) && c.0@ == u@ && c.1@ == p@,
                    _ => r is None,
                },
            },
    {
        match &self.command {
            Commands::Cut { .. } => None,
            Commands::Decode { user, password, .. } | Commands::Process {
                user,
                password,
                ..
            } => match (user, password) {
                (Some(u), Some(p)) => Some(
                    (
                        crate::text::sub_vec(u.as_slice(), 0, u.len()),
                        crate::text::sub_vec(p.as_slice(), 0, p.len()),
                    ),
                ),
                _ => None,
            },
        }
    }

    /// The recordings the invocation names.
    pub fn videos(&self) -> (r: Vec<Vec<u8>>)
        ensures
            match &self.command {
                Commands::Cut { video, .. } => r.deep_view() =~= seq![video@],
                Commands::Decode { video, .. } => r.deep_view() =~= seq![video@],
                Commands::Process { videos, .. } => r.deep_view() == videos.deep_view(),
            },
    {
        match &self.command {
            Commands::Cut { video, .. } => {
                let mut r: Vec<Vec<u8>> = Vec::new();
                r.push(crate::text::sub_vec(video.as_slice(), 0, video.len()));
                proof {
                    assert(r.deep_view() =~~= seq![video@]);
                }
                r
            },
            Commands::Decode { video, .. } => {
                let mut r: Vec<Vec<u8>> = Vec::new();
                r.push(crate::text::sub_vec(video.as_slice(), 0, video.len()));
                proof {
                    assert(r.deep_view() =~~= seq![video@]);
                }
                r
            },
            Commands::Process { videos, .. } => {
                let mut r: Vec<Vec<u8>> = Vec::new();
                let mut i: usize = 0;
                while i < videos.len()
                    invariant
                        0 <= i <= videos@.len(),
                        r.deep_view() =~= videos.deep_view().take(i as int),
                    decreases videos@.len() - i,
                {
                    let ghost prev = r.deep_view();
                    r.push(crate::text::sub_vec(videos[i].as_slice(), 0, videos[i].len()));
                    proof {
                        assert(r.deep_view() =~~= prev.push(videos.deep_view()[i as int]));
                        assert(r.deep_view() =~~= videos.deep_view().take(i + 1));
                    }
                    i = i + 1;
                }
                proof {
                    assert(videos.deep_view().take(i as int) =~= videos.deep_view());
                }
                r
            },
        }
    }

    /// The rating to give a submitted cut list; only the cut subcommand
    /// carries one.
    pub fn cutlist_rating(&self) -> (r: Option<u8>)
        requires
            self.command matches Commands::Cut { .. },
        ensures
            match &self.command {
                Commands::Cut { rating, .. } => r == rating,
                _ => true,
            },
    {
        match &self.command {
            Commands::Cut { rating, .. } => *rating,
            _ => None,
        }
    }

    /// The least accepted provider rating given on the command line; the
    /// decode subcommand carries none.
    pub fn min_cutlist_rating(&self) -> (r: Option<u8>)
        requires
            !(self.command matches Commands::Decode { .. }),
        ensures
            match &self.command {
                Commands::Cut { min_rating, .. } => r == min_rating,
                Commands::Process { min_rating, .. } => r == min_rating,
                _ => true,
            },
    {
        match &self.command {
            Commands::Cut { min_rating, .. } => *min_rating,
            Commands::Process { min_rating, .. } => *min_rating,
            _ => None,
        }
    }

    /// Whether all output is switched off.
    pub fn quiet(&self) -> (r: bool)
        ensures
            r == self.quiet,
    {
        self.quiet
    }

    /// The verbosity level.
    pub fn verbose(&self) -> (r: u8)
        ensures
            r == self.verbose,
    {
        self.verbose
    }
}

/// Whether the invocation is the cut subcommand.
pub fn is_cut_command(args: &Args) -> (r: bool)
    ensures
        r == (args.command matches Commands::Cut { .. }),
{
    match &args.command {
        Commands::Cut { .. } => true,
        _ => false,
    }
}

/// Whether the invocation is the decode subcommand.
pub fn is_decode_command(args: &Args) -> (r: bool)
    ensures
        r == (args.command matches Commands::Decode { .. }),
{
    match &args.command {
        Commands::Decode { .. } => true,
        _ => false,
    }
}

/// Whether the invocation is the process subcommand.
pub fn is_process_command(args: &Args) -> (r: bool)
    ensures
        r == (args.command matches Commands::Process { .. }),
{
    match &args.command {
        Commands::Process { .. } => true,
        _ => false,
    }
}

} // verus!
