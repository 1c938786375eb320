use vstd::prelude::*;
use vstd::string::*;

use crate::text::{chars_of, find, find_in, lemma_find_from, str_eq, substring};

verus! {

/// The position of the last `c` in `s`.
pub open spec fn last_index_of(s: Seq<char>, c: char) -> Option<int>
    decreases s.len(),
{
    if s.len() == 0 {
        None
    } else if s.last() == c {
        Some(s.len() - 1)
    } else {
        last_index_of(s.drop_last(), c)
    }
}

/// The extension of a file name, as `Path::extension` finds it: the text
/// after the last `'.'`, unless that dot opens the name (a hidden file) or
/// the name is `..`.
pub open spec fn extension_of(name: Seq<char>) -> Option<Seq<char>> {
    if name == ".."@ {
        None
    } else {
        match last_index_of(name, '.') {
            Some(i) => if i == 0 {
                None
            } else {
                Some(name.subrange(i + 1, name.len() as int))
            },
            None => None,
        }
    }
}

/// The label of a known extension, `"file"` for any other.
pub open spec fn type_label(ext: Seq<char>) -> Seq<char> {
    if ext == "rs"@ {
        "Rust file"@
    } else if ext == "py"@ {
        "Python file"@
    } else if ext == "js"@ {
        "JavaScript file"@
    } else if ext == "java"@ {
        "Java file"@
    } else if ext == "c"@ {
        "C file"@
    } else if ext == "cpp"@ {
        "C++ file"@
    } else if ext == "cc"@ {
        "C++ file"@
    } else if ext == "h"@ {
        "Header file"@
    } else if ext == "hpp"@ {
        "Header file"@
    } else if ext == "kt"@ {
        "Kotlin file"@
    } else if ext == "ts"@ {
        "Typescript"@
    } else if ext == "sh"@ {
        "Shell script"@
    } else if ext == "bash"@ {
        "Shell script"@
    } else if ext == "zsh"@ {
        "Shell script"@
    } else if ext == "bashrc"@ {
        "Shell init script"@
    } else if ext == "zshrc"@ {
        "Shell init script"@
    } else if ext == "profile"@ {
        "Shell init script"@
    } else if ext == "zprofile"@ {
        "Shell init script"@
    } else if ext == "bash_profile"@ {
        "Shell init script"@
    } else if ext == "txt"@ {
        "Text file"@
    } else if ext == "gitignore"@ {
        "gitignore file"@
    } else if ext == "zip"@ {
        "zip file"@
    } else if ext == "tar"@ {
        "tarball"@
    } else if ext == "so"@ {
        "Shared object file"@
    } else if ext == "dll"@ {
        "Data linked library"@
    } else if ext == "exe"@ {
        "Windows executable"@
    } else if ext == "mp3"@ {
        "MP3 Audio file"@
    } else if ext == "m4a"@ {
        "m4a Audio file"@
    } else if ext == "mp4"@ {
        "MP4 Video file"@
    } else if ext == "m4v"@ {
        "m4v Video file"@
    } else if ext == "mov"@ {
        "mov Video file"@
    } else if ext == "desktop"@ {
        "Linux desktop meta file"@
    } else if ext == "bin"@ {
        "Binary file"@
    } else if ext == "png"@ {
        "PNG Image"@
    } else if ext == "flac"@ {
        "flac Audio File"@
    } else if ext == "jpeg"@ {
        "JPEG Image"@
    } else if ext == "jpg"@ {
        "JPEG Image"@
    } else if ext == "blob"@ {
        "blob file"@
    } else if ext == "tsx"@ {
        "Typescript react file"@
    } else if ext == "jsx"@ {
        "Javascript react file"@
    } else if ext == "yaml"@ {
        "yaml file"@
    } else if ext == "yml"@ {
        "yaml file"@
    } else if ext == "toml"@ {
        "toml file"@
    } else if ext == "cs"@ {
        "C# file"@
    } else if ext == "html"@ {
        "html file"@
    } else if ext == "lua"@ {
        "lua file"@
    } else if ext == "dart"@ {
        "dart file"@
    } else if ext == "go"@ {
        "go file"@
    } else if ext == "conf"@ {
        "Config file"@
    } else if ext == "css"@ {
        "css file"@
    } else if ext == "json"@ {
        "json file"@
    } else if ext == "asm"@ {
        "Assembly file"@
    } else if ext == "s"@ {
        "Assembly file"@
    } else if ext == "m"@ {
        "Objective C file"@
    } else if ext == "zig"@ {
        "zig file"@
    } else if ext == "gradle"@ {
        "gradle file"@
    } else if ext == "php"@ {
        "php file"@
    } else if ext == "rb"@ {
        "ruby"@
    } else if ext == "md"@ {
        "markdown"@
    } else if ext == "AppImage"@ {
        "App image file"@
    } else if ext == "ld"@ {
        "Linker script"@
    } else if ext == "jkr"@ {
        "Balatro joker save file"@
    } else if ext == "bepis"@ {
        "Ultrakill save file"@
    } else if ext == "love"@ {
        "Love game"@
    } else if ext == "qml"@ {
        "Qt markup language file"@
    } else if ext == "svg"@ {
        "SVG image"@
    } else if ext == "ttf"@ {
        "ttf font"@
    } else if ext == "otf"@ {
        "otf font"@
    } else if ext == "gif"@ {
        "gif file"@
    } else if ext == "iso"@ {
        "Installation media file"@
    } else if ext == "patch"@ {
        "Diff file"@
    } else if ext == "diff"@ {
        "Diff file"@
    } else if ext == "smali"@ {
        "Android smali file"@
    } else if ext == "cmake"@ {
        "cmake source code file"@
    } else if ext == "sql"@ {
        "SQL database"@
    } else if ext == "sqlite"@ {
        "SQL database"@
    } else if ext == "sqlite3"@ {
        "SQL database"@
    } else if ext == "db"@ {
        "Database file"@
    } else {
        "file"@
    }
}

/// The label a file is offered under: `"directory"` for a directory, the
/// label of its extension otherwise, `"file"` when it has none.
pub open spec fn file_type_of(file_name: Seq<char>, is_dir: bool) -> Seq<char> {
    if is_dir {
        "directory"@
    } else {
        match extension_of(file_name) {
            Some(e) => type_label(e),
            None => "file"@,
        }
    }
}

/// The extension of a file name.
pub fn extension(file_name: &str) -> (r: Option<String>)
    ensures
        match (r, extension_of(file_name@)) {
            (Some(a), Some(b)) => a@ == b,
            (None, None) => true,
            _ => false,
        },
{
    if str_eq(file_name, "..") {
        return None;
    }
    let m = chars_of(file_name);
    let mut j: usize = m.len();
    assert(m@.subrange(0, j as int) =~= m@);
    while j > 0 && m[j - 1] != '.'
        invariant
            j <= m@.len(),
            m@ == file_name@,
            last_index_of(m@, '.') == last_index_of(m@.subrange(0, j as int), '.'),
        decreases j,
    {
        assert(m@.subrange(0, j as int).drop_last() =~= m@.subrange(0, j - 1));
        j = j - 1;
    }
    if j == 0 {
        assert(m@.subrange(0, 0) =~= Seq::<char>::empty());
        return None;
    }
    if j == 1 {
        return None;
    }
    Some(substring(file_name, j, m.len()))
}

/// The label of a known extension, `"file"` for any other.
pub fn type_label_for(ext: &str) -> (r: &'static str)
    ensures
        r@ == type_label(ext@),
{
    if str_eq(ext, "rs") {
        "Rust file"
    } else if str_eq(ext, "py") {
        "Python file"
    } else if str_eq(ext, "js") {
        "JavaScript file"
    } else if str_eq(ext, "java") {
        "Java file"
    } else if str_eq(ext, "c") {
        "C file"
    } else if str_eq(ext, "cpp") {
        "C++ file"
    } else if str_eq(ext, "cc") {
        "C++ file"
    } else if str_eq(ext, "h") {
        "Header file"
    } else if str_eq(ext, "hpp") {
        "Header file"
    } else if str_eq(ext, "kt") {
        "Kotlin file"
    } else if str_eq(ext, "ts") {
        "Typescript"
    } else if str_eq(ext, "sh") {
        "Shell script"
    } else if str_eq(ext, "bash") {
        "Shell script"
    } else if str_eq(ext, "zsh") {
        "Shell script"
    } else if str_eq(ext, "bashrc") {
        "Shell init script"
    } else if str_eq(ext, "zshrc") {
        "Shell init script"
    } else if str_eq(ext, "profile") {
        "Shell init script"
    } else if str_eq(ext, "zprofile") {
        "Shell init script"
    } else if str_eq(ext, "bash_profile") {
        "Shell init script"
    } else if str_eq(ext, "txt") {
        "Text file"
    } else if str_eq(ext, "gitignore") {
        "gitignore file"
    } else if str_eq(ext, "zip") {
        "zip file"
    } else if str_eq(ext, "tar") {
        "tarball"
    } else if str_eq(ext, "so") {
        "Shared object file"
    } else if str_eq(ext, "dll") {
        "Data linked library"
    } else if str_eq(ext, "exe") {
        "Windows executable"
    } else if str_eq(ext, "mp3") {
        "MP3 Audio file"
    } else if str_eq(ext, "m4a") {
        "m4a Audio file"
    } else if str_eq(ext, "mp4") {
        "MP4 Video file"
    } else if str_eq(ext, "m4v") {
        "m4v Video file"
    } else if str_eq(ext, "mov") {
        "mov Video file"
    } else if str_eq(ext, "desktop") {
        "Linux desktop meta file"
    } else if str_eq(ext, "bin") {
        "Binary file"
    } else if str_eq(ext, "png") {
        "PNG Image"
    } else if str_eq(ext, "flac") {
        "flac Audio File"
    } else if str_eq(ext, "jpeg") {
        "JPEG Image"
    } else if str_eq(ext, "jpg") {
        "JPEG Image"
    } else if str_eq(ext, "blob") {
        "blob file"
    } else if str_eq(ext, "tsx") {
        "Typescript react file"
    } else if str_eq(ext, "jsx") {
        "Javascript react file"
    } else if str_eq(ext, "yaml") {
        "yaml file"
    } else if str_eq(ext, "yml") {
        "yaml file"
    } else if str_eq(ext, "toml") {
        "toml file"
    } else if str_eq(ext, "cs") {
        "C# file"
    } else if str_eq(ext, "html") {
        "html file"
    } else if str_eq(ext, "lua") {
        "lua file"
    } else if str_eq(ext, "dart") {
        "dart file"
    } else if str_eq(ext, "go") {
        "go file"
    } else if str_eq(ext, "conf") {
        "Config file"
    } else if str_eq(ext, "css") {
        "css file"
    } else if str_eq(ext, "json") {
        "json file"
    } else if str_eq(ext, "asm") {
        "Assembly file"
    } else if str_eq(ext, "s") {
        "Assembly file"
    } else if str_eq(ext, "m") {
        "Objective C file"
    } else if str_eq(ext, "zig") {
        "zig file"
    } else if str_eq(ext, "gradle") {
        "gradle file"
    } else if str_eq(ext, "php") {
        "php file"
    } else if str_eq(ext, "rb") {
        "ruby"
    } else if str_eq(ext, "md") {
        "markdown"
    } else if str_eq(ext, "AppImage") {
        "App image file"
    } else if str_eq(ext, "ld") {
        "Linker script"
    } else if str_eq(ext, "jkr") {
        "Balatro joker save file"
    } else if str_eq(ext, "bepis") {
        "Ultrakill save file"
    } else if str_eq(ext, "love") {
        "Love game"
    } else if str_eq(ext, "qml") {
        "Qt markup language file"
    } else if str_eq(ext, "svg") {
        "SVG image"
    } else if str_eq(ext, "ttf") {
        "ttf font"
    } else if str_eq(ext, "otf") {
        "otf font"
    } else if str_eq(ext, "gif") {
        "gif file"
    } else if str_eq(ext, "iso") {
        "Installation media file"
    } else if str_eq(ext, "patch") {
        "Diff file"
    } else if str_eq(ext, "diff") {
        "Diff file"
    } else if str_eq(ext, "smali") {
        "Android smali file"
    } else if str_eq(ext, "cmake") {
        "cmake source code file"
    } else if str_eq(ext, "sql") {
        "SQL database"
    } else if str_eq(ext, "sqlite") {
        "SQL database"
    } else if str_eq(ext, "sqlite3") {
        "SQL database"
    } else if str_eq(ext, "db") {
        "Database file"
    } else {
        "file"
    }
}

/// The label a file is offered under, from its name and whether it is a
/// directory.
pub fn get_file_type(file_name: &str, is_dir: bool) -> (r: &'static str)
    ensures
        r@ == file_type_of(file_name@, is_dir),
{
    if is_dir {
        return "directory";
    }
    match extension(file_name) {
        Some(e) => type_label_for(e.as_str()),
        None => "file",
    }
}

/// The part of a file name before its first dot, not counting a dot that
/// opens the name; `..` and the empty name stay whole.
pub open spec fn name_before_dot(name: Seq<char>) -> Seq<char> {
    if name == ".."@ || name.len() == 0 {
        name
    } else {
        match find(name.subrange(1, name.len() as int), seq!['.']) {
            Some(i) => name.subrange(0, i + 1),
            None => name,
        }
    }
}

/// The part of a file name before its first dot, not counting a dot that
/// opens the name: the name a received archive is unpacked under.
pub fn fpre(file_name: &str) -> (r: String)
    ensures
        r@ == name_before_dot(file_name@),
{
    let n = file_name.unicode_len();
    if n == 0 || str_eq(file_name, "..") {
        return String::from_str(file_name);
    }
    let rest = chars_of(substring(file_name, 1, n).as_str());
    let dot = vec!['.'];
    assert(dot@ =~= seq!['.']);
    match find_in(&rest, &dot) {
        Some(i) => {
            proof {
                lemma_find_from(rest@, dot@, 0);
            }
            substring(file_name, 0, i + 1)
        },
        None => String::from_str(file_name),
    }
}

} // verus!
