use vstd::prelude::*;
use vstd::string::*;

verus! {

/// File extensions the player registers itself for.
pub const SUPPORTED_EXTENSIONS: [&'static str; 9] = ["mp4", "mkv", "avi", "webm", "mov", "flv", "mp3", "flac", "wav"];

/// Text of the freedesktop menu entry that registers the player, run as `exe`.
pub open spec fn desktop_entry_spec(exe: Seq<char>) -> Seq<char> {
    "[Desktop Entry]\nType=Application\nName=Pealayer\nComment=Modern 4D Video & Haptic Player\nExec=\""@
        + exe
        + "\" %f\nTerminal=false\nCategories=AudioVideo;Player;Video;\nMimeType=video/mp4;video/x-matroska;video/x-msvideo;video/webm;video/quicktime;video/x-flv;\n"@
}

/// Builds the freedesktop menu entry for the player executable at `exe`.
pub fn desktop_entry(exe: &str) -> (text: String)
    ensures
        text@ == desktop_entry_spec(exe@),
{
    let mut text = String::from_str(
        "[Desktop Entry]\nType=Application\nName=Pealayer\nComment=Modern 4D Video & Haptic Player\nExec=\"",
    );
    text.append(exe);
    text.append(
        "\" %f\nTerminal=false\nCategories=AudioVideo;Player;Video;\nMimeType=video/mp4;video/x-matroska;video/x-msvideo;video/webm;video/quicktime;video/x-flv;\n",
    );
    text
}

/// Shell command that opens a file with the player at `exe`: the quoted executable
/// followed by the quoted file placeholder.
pub open spec fn open_command_spec(exe: Seq<char>) -> Seq<char> {
    "\""@ + exe + "\" \"%1\""@
}

/// Builds the shell command registered for opening media files.
pub fn open_command(exe: &str) -> (cmd: String)
    ensures
        cmd@ == open_command_spec(exe@),
{
    let mut cmd = String::from_str("\"");
    cmd.append(exe);
    cmd.append("\" \"%1\"");
    cmd
}

/// Registry key of a file extension's class.
pub open spec fn extension_key_spec(ext: Seq<char>) -> Seq<char> {
    "Software\\Classes\\."@ + ext
}

/// Builds the registry key under which an extension is associated.
pub fn extension_key(ext: &str) -> (key: String)
    ensures
        key@ == extension_key_spec(ext@),
{
    let mut key = String::from_str("Software\\Classes\\.");
    key.append(ext);
    key
}

} // verus!
