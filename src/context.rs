//! Builds the whole repository context of a run: the selected files, the
//! drawn tree and what version control says of the repository.

use vstd::prelude::*;
use crate::config::Config;
use crate::error::ContextError;
use crate::files::{rules_of, some_pattern_rejected, Harvest};
use crate::snapshot::{Entry, Target};
use crate::tree::{drawable, draws_as, root_height, root_label, Row, TreeContext};
use crate::types::{entries_view, notices_view, FileContext, GitInfo, RepositoryContext};

verus! {

/// What file selection gives for a run: the whole repository when no
/// target is named, else the targets.
pub open spec fn selection_of(config: Config, now: u64, root: Option<Vec<Entry>>, targets: Seq<Target>) -> Result<Harvest, Seq<char>> {
    if config.target_paths@.len() == 0 {
        rules_of(config, now).walk_dir(root, Seq::empty())
    } else {
        rules_of(config, now).walk_targets(targets)
    }
}

/// The tree drawn for a run.
pub open spec fn tree_of(config: Config, now: u64, root: Option<Vec<Entry>>, targets: Seq<Target>) -> Result<Seq<Row>, Seq<char>> {
    if config.target_paths@.len() == 0 {
        rules_of(config, now).full_tree(root_label(config.root_path@), root)
    } else {
        rules_of(config, now).target_tree(root_label(config.root_path@), root, targets)
    }
}

/// Whether `fc` holds exactly what `h` gathered.
pub open spec fn holds_harvest(fc: FileContext, h: Result<Harvest, Seq<char>>) -> bool {
    h == Ok::<Harvest, Seq<char>>(Harvest { records: entries_view(fc.file_entries@), notices: notices_view(fc.notices@) })
}

/// Holds a run's settings and, once built, its repository context.
#[derive(Debug, Clone)]
pub struct ContextManager {
    pub config: Config,
    pub context: Option<RepositoryContext>,
}

impl ContextManager {
    pub fn new(config: Config) -> (r: Self)
        ensures
            r.config == config,
            r.context is None,
    {
        ContextManager { config, context: None }
    }

    /// Selects the files of the run.
    fn build_file_context(&self, root: &Option<Vec<Entry>>, targets: &Vec<Target>, now: u64) -> (r: Result<FileContext, ContextError>)
        ensures
            r matches Ok(fc) ==> fc.config@ == self.config@ && holds_harvest(fc, selection_of(self.config, now, *root, targets@)),
            r matches Err(ContextError::Listing(p)) ==> selection_of(self.config, now, *root, targets@) == Err::<Harvest, Seq<char>>(p@),
            selection_of(self.config, now, *root, targets@) is Err ==> r is Err,
            self.config.exclude_patterns@.len() == 0 && self.config.include_patterns@.len() == 0
                ==> (r is Ok <==> selection_of(self.config, now, *root, targets@) is Ok),
            some_pattern_rejected(self.config) ==> r is Err,
    {
        if self.config.target_paths.len() == 0 {
            FileContext::from_root(self.config.clone(), root, now)
        } else {
            FileContext::from_target_paths(self.config.clone(), targets, now)
        }
    }

    /// Draws the tree of the run.
    fn build_tree_representation(&self, root: &Option<Vec<Entry>>, targets: &Vec<Target>, now: u64) -> (r: Result<String, ContextError>)
        requires
            root_height(*root) + 1 < u32::MAX,
        ensures
            r matches Ok(s) ==> draws_as(tree_of(self.config, now, *root, targets@), s@),
            r matches Err(ContextError::Listing(p)) ==> tree_of(self.config, now, *root, targets@) == Err::<Seq<Row>, Seq<char>>(p@),
            tree_of(self.config, now, *root, targets@) is Err ==> r is Err,
            self.config.exclude_patterns@.len() == 0 && self.config.include_patterns@.len() == 0
                ==> (r is Ok <==> drawable(tree_of(self.config, now, *root, targets@))),
    {
        let mut tree_ctx = TreeContext::new(self.config.clone());
        if self.config.target_paths.len() == 0 {
            tree_ctx.build_tree_from_root(root, now)?;
        } else {
            tree_ctx.build_tree_from_targets(root, targets, now)?;
        }
        Ok(tree_ctx.tree_str)
    }

    /// Builds the repository context from the repository's root directory
    /// `repo_root`, its version-control facts `git_info`, the root listing
    /// `root`, the resolved targets of the settings, and the time `now`.
    pub fn build_context(&mut self, repo_root: String, git_info: GitInfo, root: &Option<Vec<Entry>>, targets: &Vec<Target>, now: u64) -> (r: Result<(), ContextError>)
        requires
            root_height(*root) + 1 < u32::MAX,
        ensures
            final(self).config == old(self).config,
            r is Ok ==> (final(self).context matches Some(ctx)
                && ctx.root_path == repo_root
                && ctx.git_info == git_info
                && ctx.file_ctx.config@ == old(self).config@
                && holds_harvest(ctx.file_ctx, selection_of(old(self).config, now, *root, targets@))
                && draws_as(tree_of(old(self).config, now, *root, targets@), ctx.tree_repr@)),
            r is Err ==> final(self).context == old(self).context,
            r matches Err(ContextError::Listing(p)) ==> selection_of(old(self).config, now, *root, targets@) == Err::<Harvest, Seq<char>>(p@)
                || tree_of(old(self).config, now, *root, targets@) == Err::<Seq<Row>, Seq<char>>(p@),
            selection_of(old(self).config, now, *root, targets@) is Err ==> r is Err,
            tree_of(old(self).config, now, *root, targets@) is Err ==> r is Err,
            old(self).config.exclude_patterns@.len() == 0 && old(self).config.include_patterns@.len() == 0 ==> (r is Ok
                <==> selection_of(old(self).config, now, *root, targets@) is Ok
                && drawable(tree_of(old(self).config, now, *root, targets@))),
            some_pattern_rejected(old(self).config) ==> r is Err,
    {
        let file_ctx = self.build_file_context(root, targets, now)?;
        let tree_repr = self.build_tree_representation(root, targets, now)?;
        self.context = Some(RepositoryContext { root_path: repo_root, git_info, file_ctx, tree_repr });
        Ok(())
    }
}

} // verus!
