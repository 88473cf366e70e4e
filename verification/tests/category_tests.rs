use apphub::category::{determine_category, Category};

#[test]
fn games_marker_wins_over_media_marker() {
    // A path carrying both a games and a media marker is Games:
    // first-match-wins in the fixed priority order.
    let c = determine_category("C:\\games\\media\\thing.exe");
    assert_eq!(c, Category::Games);
}

#[test]
fn games_marker_wins_over_development_marker() {
    let c = determine_category("D:\\Development\\Steam\\app.exe");
    assert_eq!(c, Category::Games);
}

#[test]
fn development_wins_over_media() {
    let c = determine_category("C:\\media\\jetbrains\\clion.exe");
    assert_eq!(c, Category::Development);
}

#[test]
fn development_wins_over_utilities() {
    let c = determine_category("C:\\Utilities\\Visual Studio\\devenv.exe");
    assert_eq!(c, Category::Development);
}

#[test]
fn media_wins_over_utilities() {
    let c = determine_category("C:\\accessories\\adobe\\photoshop.exe");
    assert_eq!(c, Category::Media);
}

#[test]
fn steam_path_is_games() {
    let c = determine_category("C:\\Steam\\cs.exe");
    assert_eq!(c, Category::Games);
}

#[test]
fn riot_and_epic_are_games() {
    assert_eq!(determine_category("C:\\Riot Games\\lol.exe"), Category::Games);
    assert_eq!(determine_category("C:\\Epic Games\\fortnite.exe"), Category::Games);
}

#[test]
fn git_is_development() {
    assert_eq!(determine_category("C:\\Git\\bin\\git.exe"), Category::Development);
}

#[test]
fn music_and_video_are_media() {
    assert_eq!(determine_category("C:\\music\\player.exe"), Category::Media);
    assert_eq!(determine_category("C:\\video\\editor.exe"), Category::Media);
}

#[test]
fn system_tools_is_utilities() {
    assert_eq!(determine_category("C:\\System Tools\\cleanmgr.exe"), Category::Utilities);
}

#[test]
fn matching_is_case_insensitive() {
    assert_eq!(determine_category("c:\\GAMES\\x.exe"), Category::Games);
    assert_eq!(determine_category("C:\\JetBrains\\idea.exe"), Category::Development);
}

#[test]
fn unmarked_path_is_other() {
    assert_eq!(determine_category("C:\\Tools\\thing.exe"), Category::Other);
}

#[test]
fn marker_needs_surrounding_separators() {
    // "games" as a bare directory-name fragment without backslashes
    // around it is not a marker.
    assert_eq!(determine_category("C:\\mygamesfolder\\x.exe"), Category::Other);
}

#[test]
fn category_names() {
    assert_eq!(Category::Games.name(), "Games");
    assert_eq!(Category::Development.name(), "Development");
    assert_eq!(Category::Media.name(), "Media");
    assert_eq!(Category::Utilities.name(), "Utilities");
    assert_eq!(Category::Web.name(), "Web");
    assert_eq!(Category::Other.name(), "Other");
}
