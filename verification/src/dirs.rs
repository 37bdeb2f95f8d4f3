//! where the CLI keeps its files: the XDG base directories, as paths of bytes on a Unix file system
//!
//! the environment and the home directory are read around the library and handed in

use vstd::prelude::*;
use vstd::string::StringSliceAdditionalSpecFns;

verus! {

/// the directory name under each base directory
pub const APP_NAME: &'static str = "things";

/// the byte of a path separator
pub const SEPARATOR: u8 = 47;

/// a path with a root: it starts with `/`
pub open spec fn absolute(path: Seq<u8>) -> bool {
    path.len() > 0 && path[0] == SEPARATOR
}

/// `PathBuf::push`: an absolute part replaces the path, a relative one goes after a separator where the path does not end in one
pub open spec fn pushed(path: Seq<u8>, part: Seq<u8>) -> Seq<u8> {
    if absolute(part) {
        part
    } else if path.len() == 0 || path.last() == SEPARATOR {
        path + part
    } else {
        path.push(SEPARATOR) + part
    }
}

/// the path with each part pushed in turn
pub open spec fn pushed_all(path: Seq<u8>, parts: Seq<Seq<u8>>) -> Seq<u8>
    decreases parts.len(),
{
    if parts.len() == 0 {
        path
    } else {
        pushed(pushed_all(path, parts.drop_last()), parts.last())
    }
}

/// the bytes of each text
pub open spec fn parts_bytes(parts: Seq<&str>) -> Seq<Seq<u8>> {
    parts.map_values(|part: &str| part.spec_bytes())
}

/// the XDG base directory a variable names: its own value where absolute, else `default` under an absolute home, else the message that names the variable
pub open spec fn xdg_home_spec(
    value: Option<Seq<u8>>,
    home: Option<Seq<u8>>,
    var: Seq<char>,
    default: Seq<Seq<u8>>,
) -> Result<Seq<u8>, Seq<char>> {
    match value {
        Some(custom) if absolute(custom) => Ok(custom),
        _ => match home {
            Some(home) if absolute(home) => Ok(pushed_all(home, default)),
            _ => Err("No absolute home directory, set "@ + var + "."@),
        },
    }
}

/// push a part onto a path as `PathBuf::push` does
pub fn push_part(path: &mut Vec<u8>, part: &str)
    ensures
        final(path)@ == pushed(old(path)@, part.spec_bytes()),
{
    let bytes = part.as_bytes();
    if bytes.len() > 0 && bytes[0] == SEPARATOR {
        let mut replaced: Vec<u8> = Vec::new();
        let mut i: usize = 0;
        while i < bytes.len()
            invariant
                i <= bytes@.len(),
                replaced@ == bytes@.take(i as int),
            decreases bytes@.len() - i,
        {
            replaced.push(bytes[i]);
            assert(bytes@.take(i + 1) =~= bytes@.take(i as int).push(bytes@[i as int]));
            i += 1;
        }
        assert(bytes@.take(bytes@.len() as int) =~= bytes@);
        *path = replaced;
        return;
    }
    if path.len() > 0 && path[path.len() - 1] != SEPARATOR {
        path.push(SEPARATOR);
    }
    let ghost start = path@;
    let mut i: usize = 0;
    while i < bytes.len()
        invariant
            i <= bytes@.len(),
            path@ == start + bytes@.take(i as int),
        decreases bytes@.len() - i,
    {
        path.push(bytes[i]);
        assert(bytes@.take(i + 1) =~= bytes@.take(i as int).push(bytes@[i as int]));
        i += 1;
    }
    assert(bytes@.take(bytes@.len() as int) =~= bytes@);
}

/// the XDG base directory named by `var`, on every platform
///
/// `default` under the home directory stands in when the variable is unset, empty or relative
/// the XDG spec has an implementation ignore a relative path
pub fn xdg_home_from(value: Option<Vec<u8>>, home: Option<Vec<u8>>, var: &str, default: &[&str]) -> (dir:
    Result<Vec<u8>, String>)
    ensures
        match xdg_home_spec(
            match value {
                Some(v) => Some(v@),
                None => None,
            },
            match home {
                Some(h) => Some(h@),
                None => None,
            },
            var@,
            parts_bytes(default@),
        ) {
            Ok(path) => dir matches Ok(d) && d@ == path,
            Err(message) => dir matches Err(m) && m@ == message,
        },
{
    if let Some(custom) = value {
        if custom.len() > 0 && custom[0] == SEPARATOR {
            return Ok(custom);
        }
    }
    // without a home the files would land in whatever directory the command runs in
    // a relative home would put them there too
    let mut path = match home {
        Some(home) => {
            if home.len() > 0 && home[0] == SEPARATOR {
                home
            } else {
                return Err(missing_home(var));
            }
        },
        None => {
            return Err(missing_home(var));
        },
    };
    let ghost base = path@;
    let mut i: usize = 0;
    while i < default.len()
        invariant
            i <= default@.len(),
            path@ == pushed_all(base, parts_bytes(default@).take(i as int)),
        decreases default@.len() - i,
    {
        push_part(&mut path, default[i]);
        assert(parts_bytes(default@).take(i + 1).drop_last() =~= parts_bytes(default@).take(
            i as int,
        ));
        i += 1;
    }
    assert(parts_bytes(default@).take(default@.len() as int) =~= parts_bytes(default@));
    Ok(path)
}

/// the message for a missing home directory
fn missing_home(var: &str) -> (message: String)
    ensures
        message@ == "No absolute home directory, set "@ + var@ + "."@,
{
    let mut message = String::from_str("No absolute home directory, set ");
    message.append(var);
    message.append(".");
    message
}

/// the directory of the append log: `things/append-log` under `XDG_STATE_HOME`, or under `.local/state` in the home directory
pub fn append_log_dir(state_home: Option<Vec<u8>>, home: Option<Vec<u8>>) -> (dir: Result<
    Vec<u8>,
    String,
>)
    ensures
        match xdg_home_spec(
            match state_home {
                Some(v) => Some(v@),
                None => None,
            },
            match home {
                Some(h) => Some(h@),
                None => None,
            },
            "XDG_STATE_HOME"@,
            parts_bytes(seq![".local", "state"]),
        ) {
            Ok(base) => dir matches Ok(d) && d@ == pushed(
                pushed(base, APP_NAME.spec_bytes()),
                "append-log".spec_bytes(),
            ),
            Err(message) => dir matches Err(m) && m@ == message,
        },
{
    let default: [&str; 2] = [".local", "state"];
    assert(default@ =~= seq![".local", "state"]);
    let mut dir = xdg_home_from(state_home, home, "XDG_STATE_HOME", default.as_slice())?;
    push_part(&mut dir, APP_NAME);
    push_part(&mut dir, "append-log");
    Ok(dir)
}

/// the auth file: `things/auth.json` under `XDG_CONFIG_HOME`, or under `.config` in the home directory
pub fn auth_file_path(config_home: Option<Vec<u8>>, home: Option<Vec<u8>>) -> (path: Result<
    Vec<u8>,
    String,
>)
    ensures
        match xdg_home_spec(
            match config_home {
                Some(v) => Some(v@),
                None => None,
            },
            match home {
                Some(h) => Some(h@),
                None => None,
            },
            "XDG_CONFIG_HOME"@,
            parts_bytes(seq![".config"]),
        ) {
            Ok(base) => path matches Ok(p) && p@ == pushed(
                pushed(base, APP_NAME.spec_bytes()),
                "auth.json".spec_bytes(),
            ),
            Err(message) => path matches Err(m) && m@ == message,
        },
{
    let default: [&str; 1] = [".config"];
    assert(default@ =~= seq![".config"]);
    let mut path = xdg_home_from(config_home, home, "XDG_CONFIG_HOME", default.as_slice())?;
    push_part(&mut path, APP_NAME);
    push_part(&mut path, "auth.json");
    Ok(path)
}

} // verus!
