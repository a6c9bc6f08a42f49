use vstd::prelude::*;
use vstd::string::*;

use crate::garbage::{FileType, GarbageRecognizer};

verus! {

/// A recognizer with a single presence file and a single deletable directory.
pub open spec fn simple_recognizer(name: Seq<char>, presence_file: Seq<char>, deletable_dir: Seq<char>) -> (
    Seq<char>,
    Seq<(bool, Seq<char>)>,
    Seq<(bool, Seq<char>)>,
) {
    (name, seq![(false, presence_file)], seq![(true, deletable_dir)])
}

/// The built-in recognizers, in order.
pub open spec fn builtin_recognizers() -> Seq<(Seq<char>, Seq<(bool, Seq<char>)>, Seq<(bool, Seq<char>)>)> {
    seq![
        simple_recognizer("Flutter"@, "pubspec.yaml"@, "build"@),
        simple_recognizer("NodeJS"@, "package.json"@, "node_modules"@),
        simple_recognizer("Rust"@, "Cargo.toml"@, "target"@),
    ]
}

fn simple(name: &str, presence_file: &str, deletable_dir: &str) -> (r: GarbageRecognizer)
    ensures
        r@ == simple_recognizer(name@, presence_file@, deletable_dir@),
{
    let mut recognize = Vec::new();
    recognize.push(FileType::File(String::from_str(presence_file)));
    let mut delete = Vec::new();
    delete.push(FileType::Directory(String::from_str(deletable_dir)));
    let r = GarbageRecognizer::new(String::from_str(name), Some(recognize), Some(delete));
    assert(r.recognize@.map_values(|f: FileType| f@) =~= seq![(false, presence_file@)]);
    assert(r.delete@.map_values(|f: FileType| f@) =~= seq![(true, deletable_dir@)]);
    r
}

/// The recognizers that ship with the tool: Flutter, NodeJS and Rust projects.
pub fn available_recognizer() -> (r: Vec<GarbageRecognizer>)
    ensures
        r@.map_values(|g: GarbageRecognizer| g@) == builtin_recognizers(),
{
    let mut r = Vec::new();
    r.push(simple("Flutter", "pubspec.yaml", "build"));
    r.push(simple("NodeJS", "package.json", "node_modules"));
    r.push(simple("Rust", "Cargo.toml", "target"));
    assert(r@.map_values(|g: GarbageRecognizer| g@) =~= builtin_recognizers());
    r
}

} // verus!
