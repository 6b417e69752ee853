//! The pages compiled into the server, loaded once into the resource map
//! before any worker starts.

use vstd::prelude::*;

use crate::string_map::StringMap;

verus! {

/// The body served for the home page.
pub open spec fn home_page_text() -> Seq<char> {
    "<html><body><h1>Danger: construction ahead</h1></body></html>"@
}

/// The body served for the introductory article.
pub open spec fn intro_rust_text() -> Seq<char> {
    "<html><body><h1>An introduction</h1></body></html>"@
}

/// Loads the compiled-in pages into the resource map, keyed by their
/// absolute paths.
pub fn load_web_resources_static(resource_map: &mut StringMap)
    requires
        old(resource_map).wf(),
    ensures
        final(resource_map).wf(),
        final(resource_map)@ == old(resource_map)@.insert("/index.html"@, home_page_text()).insert(
            "/articles/intro_rust.html"@,
            intro_rust_text(),
        ),
{
    resource_map.insert(
        String::from_str("/index.html"),
        String::from_str("<html><body><h1>Danger: construction ahead</h1></body></html>"),
    );
    resource_map.insert(
        String::from_str("/articles/intro_rust.html"),
        String::from_str("<html><body><h1>An introduction</h1></body></html>"),
    );
}

} // verus!
