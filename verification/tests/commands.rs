use sov_core::args::{ListCommand, ScriptCommand, SearchCommand, SovArgs, SovCmd};
use sov_core::error::SovError;
use sov_core::path::NotePath;
use sov_core::{Sov, SovFeature};

#[test]
fn commands_ask_for_features() {
    assert_eq!(SovFeature::from(SovCmd::Index), SovFeature::Index);
    assert_eq!(SovFeature::from(SovCmd::Daily), SovFeature::Daily);
    assert_eq!(SovFeature::from(SovCmd::List { cmd: ListCommand::Tags }), SovFeature::ListTags);
    assert_eq!(SovFeature::from(SovCmd::List { cmd: ListCommand::Orphans }), SovFeature::ListOrphans);
    assert_eq!(SovFeature::from(SovCmd::List { cmd: ListCommand::DeadLinks }), SovFeature::ListDeadLinks);
    assert_eq!(SovFeature::from(SovCmd::List { cmd: ListCommand::Scripts }), SovFeature::ListScripts);
    assert_eq!(
        SovFeature::from(SovCmd::Resolve { note: "a".to_string() }),
        SovFeature::ResolveNote { note: "a".to_string() }
    );
    assert_eq!(
        SovFeature::from(SovCmd::Rename {
            path: NotePath::Text("/n/a.md".to_string()),
            new_filename: "b".to_string()
        }),
        SovFeature::Rename { path: NotePath::Text("/n/a.md".to_string()), new_filename: "b".to_string() }
    );
    assert_eq!(
        SovFeature::from(SovCmd::Search { cmd: SearchCommand::Tag { name: "t".to_string() } }),
        SovFeature::SearchTag { tag: "t".to_string() }
    );
}

#[test]
fn script_commands_ask_for_script_features() {
    let args = vec!["x".to_string(), "y".to_string()];
    let run: SovFeature = SovCmd::Script {
        cmd: ScriptCommand::Run { script_name: "s".to_string(), args: args.clone() },
    }
    .into();
    assert_eq!(run, SovFeature::ScriptRun { script_name: "s".to_string(), args: args.clone() });
    let create: SovFeature = SovCmd::Script {
        cmd: ScriptCommand::Create {
            note_name: "n".to_string(),
            script_name: "s".to_string(),
            args: args.clone(),
        },
    }
    .into();
    assert_eq!(
        create,
        SovFeature::ScriptCreate { note_name: "n".to_string(), script_name: "s".to_string(), args }
    );
}

#[test]
fn arguments_hold_a_command() {
    let args = SovArgs { cmd: SovCmd::Index };
    assert_eq!(args.cmd, SovCmd::Index);
}

#[test]
fn errors_describe_themselves() {
    assert_eq!(SovError::Yaml("bad".to_string()).message(), "yaml error: bad");
    assert_eq!(SovError::Chrono("bad".to_string()).message(), "chrono error: bad");
    assert_eq!(SovError::NoConfigDir.message(), "no config dir");
    assert_eq!(SovError::NoNotesDir.message(), "no notes dir, please set `notes_dir` in sov.toml");
    assert_eq!(SovError::ScriptFailed("s".to_string()).message(), "script failed: s");
    assert_eq!(
        SovError::InvalidPath(NotePath::Opaque("/n/\u{fffd}".to_string())).message(),
        "invalid path: /n/\u{fffd}"
    );
    assert_eq!(SovError::InvalidTime.message(), "file time error");
    assert_eq!(
        SovError::InvalidNotesDir(NotePath::Text("notes".to_string())).message(),
        "invalid notes dir: notes"
    );
    assert_eq!(SovError::ScriptNotFound("s".to_string()).message(), "script not found: s");
}

#[test]
fn paths_as_values() {
    let text = NotePath::Text("/n/a.md".to_string());
    let opaque = NotePath::Opaque("/n/\u{fffd}.md".to_string());
    assert_eq!(text.to_str(), Some("/n/a.md"));
    assert_eq!(opaque.to_str(), None);
    assert_eq!(text.display(), "/n/a.md");
    assert_eq!(opaque.display(), "/n/\u{fffd}.md");
    assert_eq!(text.duplicate(), text);
    assert_eq!(opaque.duplicate(), opaque);
    assert_ne!(text, NotePath::Opaque("/n/a.md".to_string()));
}

#[test]
fn engine_is_reached_from_the_root() {
    let entries = vec![];
    assert_eq!(Sov::list_scripts(&entries), Ok(vec![]));
}
