//! The commands of the command line, and the features they ask for.

use vstd::prelude::*;
use crate::path::{NotePath, PathView};
use crate::text::texts;

verus! {

/// What the engine can be asked to do.
#[derive(Debug, PartialEq, Eq)]
pub enum SovFeature {
    Index,
    Daily,
    ListNotes,
    ListTags,
    ListOrphans,
    ListDeadLinks,
    ListAliases,
    ListScripts,
    ResolveNote { note: String },
    ResolveLinks { note: String },
    ResolveDeadLinks { note: String },
    ResolveBacklinks { note: String },
    Rename { path: NotePath, new_filename: String },
    SearchTag { tag: String },
    ScriptRun { script_name: String, args: Vec<String> },
    ScriptCreate { note_name: String, script_name: String, args: Vec<String> },
}

/// What a `SovFeature` holds, as mathematical values.
pub enum FeatureView {
    Index,
    Daily,
    ListNotes,
    ListTags,
    ListOrphans,
    ListDeadLinks,
    ListAliases,
    ListScripts,
    ResolveNote { note: Seq<char> },
    ResolveLinks { note: Seq<char> },
    ResolveDeadLinks { note: Seq<char> },
    ResolveBacklinks { note: Seq<char> },
    Rename { path: PathView, new_filename: Seq<char> },
    SearchTag { tag: Seq<char> },
    ScriptRun { script_name: Seq<char>, args: Seq<Seq<char>> },
    ScriptCreate { note_name: Seq<char>, script_name: Seq<char>, args: Seq<Seq<char>> },
}

impl View for SovFeature {
    type V = FeatureView;

    open spec fn view(&self) -> FeatureView {
        match self {
            SovFeature::Index => FeatureView::Index,
            SovFeature::Daily => FeatureView::Daily,
            SovFeature::ListNotes => FeatureView::ListNotes,
            SovFeature::ListTags => FeatureView::ListTags,
            SovFeature::ListOrphans => FeatureView::ListOrphans,
            SovFeature::ListDeadLinks => FeatureView::ListDeadLinks,
            SovFeature::ListAliases => FeatureView::ListAliases,
            SovFeature::ListScripts => FeatureView::ListScripts,
            SovFeature::ResolveNote { note } => FeatureView::ResolveNote { note: note@ },
            SovFeature::ResolveLinks { note } => FeatureView::ResolveLinks { note: note@ },
            SovFeature::ResolveDeadLinks { note } => FeatureView::ResolveDeadLinks { note: note@ },
            SovFeature::ResolveBacklinks { note } => FeatureView::ResolveBacklinks { note: note@ },
            SovFeature::Rename { path, new_filename } => FeatureView::Rename {
                path: path@,
                new_filename: new_filename@,
            },
            SovFeature::SearchTag { tag } => FeatureView::SearchTag { tag: tag@ },
            SovFeature::ScriptRun { script_name, args } => FeatureView::ScriptRun {
                script_name: script_name@,
                args: texts(args@),
            },
            SovFeature::ScriptCreate { note_name, script_name, args } => FeatureView::ScriptCreate {
                note_name: note_name@,
                script_name: script_name@,
                args: texts(args@),
            },
        }
    }
}

/// The arguments of the command line.
#[derive(Debug, PartialEq, Eq)]
pub struct SovArgs {
    pub cmd: SovCmd,
}

/// The commands.
#[derive(Debug, PartialEq, Eq)]
#[allow(inconsistent_fields)]
pub enum SovCmd {
    Index,
    List { cmd: ListCommand },
    Resolve { note: String },
    Rename { path: NotePath, new_filename: String },
    Script { cmd: ScriptCommand },
    Search { cmd: SearchCommand },
    Daily,
}

/// What can be listed.
#[derive(Debug, PartialEq, Eq)]
pub enum ListCommand {
    Tags,
    /// The notes that no note links to.
    Orphans,
    /// The links to notes that do not exist.
    DeadLinks,
    Scripts,
}

/// What can be done with a script.
#[derive(Debug, PartialEq, Eq)]
pub enum ScriptCommand {
    Run { script_name: String, args: Vec<String> },
    Create { note_name: String, script_name: String, args: Vec<String> },
}

/// What can be searched by.
#[derive(Debug, PartialEq, Eq)]
pub enum SearchCommand {
    Tag { name: String },
}

/// The feature that a command asks for.
pub open spec fn feature_of(cmd: SovCmd) -> SovFeature {
    match cmd {
        SovCmd::Index => SovFeature::Index,
        SovCmd::List { cmd: ListCommand::Tags } => SovFeature::ListTags,
        SovCmd::List { cmd: ListCommand::Orphans } => SovFeature::ListOrphans,
        SovCmd::List { cmd: ListCommand::DeadLinks } => SovFeature::ListDeadLinks,
        SovCmd::List { cmd: ListCommand::Scripts } => SovFeature::ListScripts,
        SovCmd::Resolve { note } => SovFeature::ResolveNote { note },
        SovCmd::Rename { path, new_filename } => SovFeature::Rename { path, new_filename },
        SovCmd::Daily => SovFeature::Daily,
        SovCmd::Script { cmd: ScriptCommand::Run { script_name, args } } => SovFeature::ScriptRun {
            script_name,
            args,
        },
        SovCmd::Script {
            cmd: ScriptCommand::Create { note_name, script_name, args },
        } => SovFeature::ScriptCreate { note_name, script_name, args },
        SovCmd::Search { cmd: SearchCommand::Tag { name } } => SovFeature::SearchTag { tag: name },
    }
}

impl From<SovCmd> for SovFeature {
    fn from(cmd: SovCmd) -> (feature: SovFeature) {
        match cmd {
            SovCmd::Index => SovFeature::Index,
            SovCmd::List { cmd } => match cmd {
                ListCommand::Tags => SovFeature::ListTags,
                ListCommand::Orphans => SovFeature::ListOrphans,
                ListCommand::DeadLinks => SovFeature::ListDeadLinks,
                ListCommand::Scripts => SovFeature::ListScripts,
            },
            SovCmd::Resolve { note } => SovFeature::ResolveNote { note },
            SovCmd::Rename { path, new_filename } => SovFeature::Rename { path, new_filename },
            SovCmd::Daily => SovFeature::Daily,
            SovCmd::Script { cmd } => match cmd {
                ScriptCommand::Run { script_name, args } => SovFeature::ScriptRun {
                    script_name,
                    args,
                },
                ScriptCommand::Create { note_name, script_name, args } => SovFeature::ScriptCreate {
                    note_name,
                    script_name,
                    args,
                },
            },
            SovCmd::Search { cmd } => match cmd {
                SearchCommand::Tag { name } => SovFeature::SearchTag { tag: name },
            },
        }
    }
}

impl vstd::std_specs::convert::FromSpecImpl<SovCmd> for SovFeature {
    open spec fn obeys_from_spec() -> bool {
        true
    }

    open spec fn from_spec(cmd: SovCmd) -> SovFeature {
        feature_of(cmd)
    }
}

} // verus!
