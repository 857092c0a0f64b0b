use vstd::prelude::*;

pub mod automation;
pub mod config;
pub mod data;
pub mod input;
pub mod shader;
pub mod text;

verus! {

/// The directory `name` under the directory `base`.
pub fn join_dir(base: &str, name: &str) -> (r: String)
    ensures
        r@ == base@ + seq!['/'] + name@,
{
    let mut s = base.to_string();
    s.push('/');
    s.push_str(name);
    s
}

/// Where shared shader libraries live under the application's data directory.
pub fn get_libs_path(data_path: &str) -> (r: String)
    ensures
        r@ == data_path@ + seq!['/', 'l', 'i', 'b', 's'],
{
    proof {
        reveal_strlit("libs");
    }
    let r = join_dir(data_path, "libs");
    assert(r@ =~= data_path@ + seq!['/', 'l', 'i', 'b', 's']);
    r
}

/// Where filters live under the application's data directory.
pub fn get_filters_path(data_path: &str) -> (r: String)
    ensures
        r@ == data_path@ + seq!['/', 'f', 'i', 'l', 't', 'e', 'r', 's'],
{
    proof {
        reveal_strlit("filters");
    }
    let r = join_dir(data_path, "filters");
    assert(r@ =~= data_path@ + seq!['/', 'f', 'i', 'l', 't', 'e', 'r', 's']);
    r
}

} // verus!
