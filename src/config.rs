use vstd::prelude::*;

verus! {

/// One runnable entry of the configuration: a display name and the shell
/// command line it stands for.
pub struct CommandItem {
    pub name: String,
    pub command: String,
}

/// A named group of commands, shown as a header in the menu.
pub struct Category {
    pub name: String,
    pub commands: Vec<CommandItem>,
}

/// Application-wide settings.
pub struct AppConfig {
    pub title: String,
}

/// The whole configuration: the title and the categories in order.
pub struct Config {
    pub app: AppConfig,
    pub categories: Vec<Category>,
}

/// `c` is the command named `name` that runs `command`.
pub open spec fn command_is(c: CommandItem, name: Seq<char>, command: Seq<char>) -> bool {
    c.name@ == name && c.command@ == command
}

/// `config` is the built-in configuration: the title "Main system HUB 🦀",
/// a "System" category with three maintenance commands, and a
/// "Personalization" category with one.
pub open spec fn is_builtin(config: Config) -> bool {
    let cs = config.categories@;
    &&& config.app.title@ == "Main system HUB 🦀"@
    &&& cs.len() == 2
    &&& cs[0].name@ == "System"@
    &&& cs[0].commands@.len() == 3
    &&& command_is(cs[0].commands@[0], "🔂 Update System"@, "./scripts/update.sh"@)
    &&& command_is(cs[0].commands@[1], "🧹 Clean Pacman&Paru Cache"@, "./scripts/scc.sh"@)
    &&& command_is(
        cs[0].commands@[2],
        "🪠 Clean RAM"@,
        "sudo sync; sudo sysctl -w vm.drop_caches=3"@,
    )
    &&& cs[1].name@ == "Personalization"@
    &&& cs[1].commands@.len() == 1
    &&& command_is(cs[1].commands@[0], "🎨 Change Theme"@, "echo 'Theme changer coming soon'"@)
}

impl Config {
    /// The built-in configuration, used when no configuration file can be
    /// read.
    pub fn default() -> (r: Config)
        ensures
            is_builtin(r),
    {
        let system = Category {
            name: "System".to_string(),
            commands: vec![
                CommandItem {
                    name: "🔂 Update System".to_string(),
                    command: "./scripts/update.sh".to_string(),
                },
                CommandItem {
                    name: "🧹 Clean Pacman&Paru Cache".to_string(),
                    command: "./scripts/scc.sh".to_string(),
                },
                CommandItem {
                    name: "🪠 Clean RAM".to_string(),
                    command: "sudo sync; sudo sysctl -w vm.drop_caches=3".to_string(),
                },
            ],
        };
        let personalization = Category {
            name: "Personalization".to_string(),
            commands: vec![
                CommandItem {
                    name: "🎨 Change Theme".to_string(),
                    command: "echo 'Theme changer coming soon'".to_string(),
                },
            ],
        };
        Config {
            app: AppConfig { title: "Main system HUB 🦀".to_string() },
            categories: vec![system, personalization],
        }
    }

    /// The configuration that was loaded, or the built-in one when loading
    /// failed for any reason; a failure is never passed on.
    pub fn or_default(loaded: Result<Config, String>) -> (r: Config)
        ensures
            loaded is Ok ==> r == loaded->Ok_0,
            loaded is Err ==> is_builtin(r),
    {
        match loaded {
            Ok(config) => config,
            Err(_) => Config::default(),
        }
    }
}

} // verus!
