//! Drive helpers: upload file names and metadata, download destinations.
use vstd::prelude::*;
use crate::error::{concat3, concat_msg, GwsError};
use crate::json::{entry, entry_views, lemma_obj_lookup_at, obj_lookup, views, Json, JsonValue};
use crate::text::after_last;

verus! {

/// The Drive helper's subcommands.
#[derive(Debug)]
pub struct DriveHelper;

/// The subcommands of the Drive helper.
#[derive(Debug)]
pub enum DriveCommand {
    Upload,
    Download,
    RevisionGet,
}

impl DriveHelper {
    /// The subcommand that a name selects (`+upload`, `+download`,
    /// `+revision-get`), if any.
    pub fn command(name: &str) -> (r: Option<DriveCommand>)
        ensures
            name@ == "+upload"@ <==> r matches Some(DriveCommand::Upload),
            name@ == "+download"@ <==> r matches Some(DriveCommand::Download),
            name@ == "+revision-get"@ <==> r matches Some(DriveCommand::RevisionGet),
    {
        proof {
            reveal_strlit("+upload");
            reveal_strlit("+download");
            reveal_strlit("+revision-get");
            assert("+upload"@.len() != "+download"@.len());
            assert("+upload"@.len() != "+revision-get"@.len());
            assert("+download"@.len() != "+revision-get"@.len());
        }
        if crate::text::same_text(name, "+upload") {
            Some(DriveCommand::Upload)
        } else if crate::text::same_text(name, "+download") {
            Some(DriveCommand::Download)
        } else if crate::text::same_text(name, "+revision-get") {
            Some(DriveCommand::RevisionGet)
        } else {
            None
        }
    }
}

/// `p` ends in a `..` component.
pub open spec fn ends_in_parent_dir(p: Seq<char>) -> bool {
    p == ".."@ || (p.len() >= 3 && p.skip(p.len() - 3) == "/.."@)
}

/// A path that every platform reads with `/` as its only separator and no
/// prefix: it holds no backslash (a Windows separator, and the mark of verbatim and
/// device paths) and does not start with `//` (a Windows network share).
pub open spec fn portable_path(p: Seq<char>) -> bool {
    &&& !p.contains('\\')
    &&& !(p.len() >= 2 && p[0] == '/' && p[1] == '/')
}

/// A portable path that holds no `:` either, so no platform reads a drive
/// prefix in it.
pub open spec fn plain_path(p: Seq<char>) -> bool {
    portable_path(p) && !p.contains(':')
}

/// The last `/`-separated segment of a path.
pub open spec fn last_segment(p: Seq<char>) -> Seq<char> {
    after_last(p, '/')
}

/// The last `/`-separated segment of a plain path names a file: it is not
/// empty, `.` or `..`.
pub open spec fn names_file(p: Seq<char>) -> bool {
    let seg = last_segment(p);
    seg.len() > 0 && seg != "."@ && seg != ".."@
}

/// The last component of a path.
///
/// Trusted: std's `Path::file_name` (with `OsStr::to_str`, which cannot fail
/// on a path made from a `&str`). A file name is a component, so it is never
/// empty. For a portable path (see `portable_path`) the facts that the
/// documentation gives on every platform are stated: an empty path, the root
/// `/` and a path ending in `..` have no file name, a file name holds no `/`,
/// and when the path also holds no `:`, a last `/`-segment that is not empty,
/// `.` or `..` is the file name. For other paths (backslashes, verbatim and
/// device paths, drive letters, network shares) the result follows the
/// platform's path syntax and is not stated.
#[verifier::external_body]
fn path_file_name(path: &str) -> (r: Option<String>)
    ensures
        r matches Some(n) ==> n@.len() > 0,
        portable_path(path@) && (path@.len() == 0 || path@ == "/"@ || ends_in_parent_dir(path@))
            ==> r is None,
        portable_path(path@) && r is Some ==> !r->0@.contains('/'),
        plain_path(path@) && names_file(path@) ==> r is Some && r->0@ == last_segment(path@),
{
    std::path::Path::new(path).file_name().and_then(|n| n.to_str()).map(|s| s.to_string())
}

/// The upload's file name: the name given, else the file name that the path
/// yields, else the "Invalid file path" validation error.
pub open spec fn filename_spec(name_arg: Option<Seq<char>>, file_name: Option<Seq<char>>) -> Result<Seq<char>, Seq<char>> {
    match name_arg {
        Some(n) => Ok(n),
        None => match file_name {
            Some(f) => Ok(f),
            None => Err("Invalid file path"@),
        },
    }
}

/// Chooses the upload's file name from the name given and the file name
/// read from the path.
pub fn choose_filename(name_arg: Option<&str>, file_name: Option<String>) -> (r: Result<String, GwsError>)
    ensures
        match (r, filename_spec(
            match name_arg {
                Some(n) => Some(n@),
                None => None,
            },
            match file_name {
                Some(f) => Some(f@),
                None => None,
            },
        )) {
            (Ok(s), Ok(t)) => s@ == t,
            (Err(GwsError::Validation(m)), Err(t)) => m@ == t,
            _ => false,
        },
{
    match name_arg {
        Some(n) => Ok(String::from_str(n)),
        None => match file_name {
            Some(f) => Ok(f),
            None => Err(GwsError::Validation(String::from_str("Invalid file path"))),
        },
    }
}

/// The name under which a file is uploaded: `name_arg` when given, else the
/// file name of `file_path` (for a plain path, its last `/`-segment).
pub fn determine_filename(file_path: &str, name_arg: Option<&str>) -> (r: Result<String, GwsError>)
    ensures
        name_arg matches Some(n) ==> r matches Ok(s) && s@ == n@,
        name_arg is None ==> match r {
            Ok(s) => s@.len() > 0,
            Err(e) => e matches GwsError::Validation(m) && m@ == "Invalid file path"@,
        },
        name_arg is None && portable_path(file_path@) ==> (r matches Ok(s) ==> !s@.contains('/')),
        name_arg is None && portable_path(file_path@) && (file_path@.len() == 0 || file_path@
            == "/"@ || ends_in_parent_dir(file_path@)) ==> r is Err,
        name_arg is None && plain_path(file_path@) && names_file(file_path@) ==> (r matches Ok(s)
            && s@ == last_segment(file_path@)),
{
    match name_arg {
        Some(n) => choose_filename(Some(n), None),
        None => choose_filename(None, path_file_name(file_path)),
    }
}

/// The metadata of an upload: `{"name": filename}`, with `"parents":
/// [parent]` when a parent folder is given.
pub open spec fn metadata_spec(filename: Seq<char>, parent_id: Option<Seq<char>>) -> Json {
    match parent_id {
        None => Json::Object(seq![("name"@, Json::Str(filename))]),
        Some(p) => Json::Object(
            seq![("name"@, Json::Str(filename)), ("parents"@, Json::Array(seq![Json::Str(p)]))],
        ),
    }
}

/// The metadata of an upload names the file `filename`, and lists the parent
/// folder exactly when one is given.
pub proof fn lemma_metadata_fields(filename: Seq<char>, parent_id: Option<Seq<char>>)
    ensures
        metadata_spec(filename, parent_id).at("name"@) == Json::Str(filename),
        parent_id is Some ==> metadata_spec(filename, parent_id).at("parents"@) == Json::Array(
            seq![Json::Str(parent_id->0)],
        ),
        parent_id is None ==> metadata_spec(filename, parent_id).get("parents"@) is None,
{
    reveal_strlit("name");
    reveal_strlit("parents");
    assert("name"@.len() != "parents"@.len());
    let e = metadata_spec(filename, parent_id)->Object_0;
    lemma_obj_lookup_at(e, 0);
    if let Some(p) = parent_id {
        assert(e[1] == ("parents"@, Json::Array(seq![Json::Str(p)])));
        lemma_obj_lookup_at(e, 1);
        assert(metadata_spec(filename, parent_id).get("parents"@) == Some(e[1].1));
        assert(metadata_spec(filename, parent_id).at("parents"@) == Json::Array(seq![Json::Str(p)]));
    } else {
        assert(e.len() == 1);
        assert(e[0].0 != "parents"@);
        assert(obj_lookup(e.drop_first(), "parents"@) is None);
        assert(obj_lookup(e, "parents"@) == obj_lookup(e.drop_first(), "parents"@));
    }
}

/// Builds the metadata of an upload.
pub fn build_metadata(filename: &str, parent_id: Option<&str>) -> (r: JsonValue)
    ensures
        r@ == metadata_spec(
            filename@,
            match parent_id {
                Some(p) => Some(p@),
                None => None,
            },
        ),
{
    let mut m: Vec<(String, JsonValue)> = Vec::new();
    m.push(entry("name", JsonValue::text(filename)));
    match parent_id {
        Some(p) => {
            let mut items: Vec<JsonValue> = Vec::new();
            items.push(JsonValue::text(p));
            let parents = JsonValue::array(items);
            assert(views(items@) =~= seq![Json::Str(p@)]);
            m.push(entry("parents", parents));
            let r = JsonValue::object(m);
            assert(entry_views(m@) =~~= seq![
                ("name"@, Json::Str(filename@)),
                ("parents"@, Json::Array(seq![Json::Str(p@)])),
            ]);
            r
        },
        None => {
            let r = JsonValue::object(m);
            assert(entry_views(m@) =~~= seq![("name"@, Json::Str(filename@))]);
            r
        },
    }
}

/// Where a download is written: the path given, else `/tmp/{file_id}`.
pub fn download_dest(file_id: &str, dest: Option<&str>) -> (r: String)
    ensures
        r@ == match dest {
            Some(d) => d@,
            None => "/tmp/"@ + file_id@,
        },
{
    match dest {
        Some(d) => String::from_str(d),
        None => concat_msg("/tmp/", file_id),
    }
}

/// Where a revision download is written: the path given, else
/// `/tmp/{file_id}-{revision_id}`.
pub fn revision_dest(file_id: &str, revision_id: &str, dest: Option<&str>) -> (r: String)
    ensures
        r@ == match dest {
            Some(d) => d@,
            None => "/tmp/"@ + file_id@ + "-"@ + revision_id@,
        },
{
    match dest {
        Some(d) => String::from_str(d),
        None => {
            let head = concat3("/tmp/", file_id, "-");
            concat_msg(head.as_str(), revision_id)
        },
    }
}

} // verus!
