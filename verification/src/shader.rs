//! Where shader sources live.
use crate::runtime::{join_path, spec_join_path};
use crate::text::push_str;
use vstd::prelude::*;

verus! {

/// `{assets_root}/shaders/{shader_name}.wgsl`, joined as paths are.
pub open spec fn shader_path_spec(assets_root: Seq<char>, shader_name: Seq<char>) -> Seq<char> {
    spec_join_path(spec_join_path(assets_root, "shaders"@), shader_name + ".wgsl"@)
}

/// The path of the WGSL source of shader `shader_name`: shader assets live
/// under `{assets_root}/shaders/*.wgsl`.
pub fn shader_asset_path(assets_root: &str, shader_name: &str) -> (r: String)
    ensures
        r@ == shader_path_spec(assets_root@, shader_name@),
{
    let dir = join_path(assets_root, "shaders");
    let mut file = shader_name.to_owned();
    push_str(&mut file, ".wgsl");
    join_path(dir.as_str(), file.as_str())
}

} // verus!
