use vstd::prelude::*;

verus! {

/// User configuration consumed by the batch coordinator: where output files
/// land and how many downloads may run at once.
#[derive(Clone, Debug)]
pub struct Settings {
    pub download_folder: String,
    pub parallel_downloads: u8,
}

/// A parallel-download count is accepted exactly when it lies in 1..=10.
pub fn validate_parallel_downloads(count: u8) -> (r: Result<(), String>)
    ensures
        r is Ok <==> 1 <= count <= 10,
        count < 1 ==> (r matches Err(m) && m@ == "Parallel downloads must be at least 1"@),
        count > 10 ==> (r matches Err(m) && m@ == "Parallel downloads cannot exceed 10"@),
{
    if count < 1 {
        return Err(String::from_str("Parallel downloads must be at least 1"));
    }
    if count > 10 {
        return Err(String::from_str("Parallel downloads cannot exceed 10"));
    }
    Ok(())
}

} // verus!
