use vstd::prelude::*;

verus! {

/// Where the app keeps its files: folder names below the platform's data
/// directory, outermost first.
pub open spec fn app_dir_parts() -> Seq<Seq<char>> {
    seq!["Backtune"@]
}

/// The app's folder, below the platform's data directory.
pub fn app_dir() -> (p: Vec<String>)
    ensures
        p.deep_view() == app_dir_parts(),
{
    let mut p: Vec<String> = Vec::new();
    p.push(String::from_str("Backtune"));
    proof {
        assert(p.deep_view() =~= app_dir_parts());
    }
    p
}

/// The folder the tracks are read from: `Backtune/sounds` below the
/// platform's data directory.
pub fn get_sounds_dir() -> (p: Vec<String>)
    ensures
        p.deep_view() == app_dir_parts().push("sounds"@),
{
    let mut p = app_dir();
    p.push(String::from_str("sounds"));
    proof {
        assert(p.deep_view() =~= app_dir_parts().push("sounds"@));
    }
    p
}

/// The settings file: `Backtune/settings.json` below the platform's data
/// directory.
pub fn get_settings() -> (p: Vec<String>)
    ensures
        p.deep_view() == app_dir_parts().push("settings.json"@),
{
    let mut p = app_dir();
    p.push(String::from_str("settings.json"));
    proof {
        assert(p.deep_view() =~= app_dir_parts().push("settings.json"@));
    }
    p
}

} // verus!
