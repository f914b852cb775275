//! Classification of output files into manifest output categories.
use vstd::prelude::*;
use crate::text::contains;
use crate::text::ends_with;
use crate::text::contains_seq;
use crate::text::is_suffix;
use crate::text::to_owned_string;

verus! {

/// The output category of a file path: the first rule that matches, in the
/// order of the manifest schema.
pub open spec fn category_of(p: Seq<char>) -> Seq<char> {
    if is_suffix(".so"@, p) || contains_seq(p, ".so."@) {
        "lib"@
    } else if contains_seq(p, "/include/"@) {
        "dev"@
    } else if is_suffix(".pc"@, p) || contains_seq(p, "/pkgconfig/"@) {
        "dev"@
    } else if is_suffix(".la"@, p) {
        "dev"@
    } else if is_suffix(".a"@, p) {
        "static"@
    } else if contains_seq(p, "/share/man/"@) {
        "man"@
    } else if contains_seq(p, "/share/info/"@) {
        "info"@
    } else if contains_seq(p, "/share/doc"@) {
        "doc"@
    } else if contains_seq(p, "/locale/"@) {
        "locale"@
    } else if contains_seq(p, "/bin/"@) {
        "bin"@
    } else if contains_seq(p, "/libexec/"@) {
        "bin"@
    } else if contains_seq(p, "/lib/"@) || contains_seq(p, "/lib64/"@) {
        "lib"@
    } else if contains_seq(p, "/conf/"@) || contains_seq(p, "/etc/"@) || is_suffix(".conf"@, p) {
        "conf"@
    } else {
        "misc"@
    }
}

/// Classifies an output path into the manifest output category the builder
/// expects. The logic matches the manifest schema so both the runtime scanner
/// and the manifest pretty-printer can share the same categorization rules.
pub fn determine_category(file_path: &str) -> (r: String)
    ensures
        r@ == category_of(file_path@),
{
    let p = file_path;
    let c = if ends_with(p, ".so") || contains(p, ".so.") {
        "lib"
    } else if contains(p, "/include/") {
        "dev"
    } else if ends_with(p, ".pc") || contains(p, "/pkgconfig/") {
        "dev"
    } else if ends_with(p, ".la") {
        "dev"
    } else if ends_with(p, ".a") {
        "static"
    } else if contains(p, "/share/man/") {
        "man"
    } else if contains(p, "/share/info/") {
        "info"
    } else if contains(p, "/share/doc") {
        "doc"
    } else if contains(p, "/locale/") {
        "locale"
    } else if contains(p, "/bin/") {
        "bin"
    } else if contains(p, "/libexec/") {
        "bin"
    } else if contains(p, "/lib/") || contains(p, "/lib64/") {
        "lib"
    } else if contains(p, "/conf/") || contains(p, "/etc/") || ends_with(p, ".conf") {
        "conf"
    } else {
        "misc"
    };
    to_owned_string(c)
}

} // verus!
