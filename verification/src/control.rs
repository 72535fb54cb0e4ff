//! Control commands: `cosmicbar toggle network` from a compositor keybind.
use crate::modules::id::{declared, ModuleId, Names};
use crate::paths::{join_path, seen_from};
use crate::text::{concat3, join, joined, same, text_words, texts, words};
use vstd::prelude::*;
use vstd::string::*;

verus! {

#[derive(Debug, Clone, PartialEq, Eq)]
pub enum Command {
    /// Open the module's popup, or close it if that popup is already open.
    Toggle(ModuleId),
    /// Close whatever popup is open.
    Close,
    /// Re-read the config file.
    Reload,
    /// Apply the brightness mode of this name, or step to the next one.
    BrightnessMode(Option<String>),
}

impl Command {
    /// The command that a line gives, or what is wrong with it. The name of a
    /// brightness mode may be several words; elsewhere further words are
    /// ignored.
    pub fn parse(line: &str, names: &Names) -> (r: Result<Command, String>)
        requires
            names.wf(),
        ensures
            ({
                let said = text_words(line@);
                if said.len() == 0 {
                    r matches Err(error) && error@ == "empty command"@
                } else if said[0] == "toggle"@ {
                    if said.len() == 1 {
                        r matches Err(error) && error@ == "toggle needs a module name"@
                    } else {
                        match declared(said[1], names.names@) {
                            Some(module) => r == Ok::<Command, String>(Command::Toggle(module)),
                            None => r matches Err(error) && error@ == "unknown module `"@ + said[1]
                                + "`"@,
                        }
                    }
                } else if said[0] == "close"@ {
                    r == Ok::<Command, String>(Command::Close)
                } else if said[0] == "reload"@ {
                    r == Ok::<Command, String>(Command::Reload)
                } else if said[0] == "brightness-mode"@ {
                    if said.len() == 1 {
                        r == Ok::<Command, String>(Command::BrightnessMode(None))
                    } else {
                        r matches Ok(Command::BrightnessMode(Some(name))) && name@ == joined(
                            said.skip(1),
                            " "@,
                        )
                    }
                } else {
                    r matches Err(error) && error@ == "unknown command `"@ + said[0] + "`"@
                }
            }),
    {
        let said = words(line);
        if said.len() == 0 {
            assert(text_words(line@).len() == 0);
            return Err("empty command".to_owned());
        }
        assert(text_words(line@)[0] == said@[0]@);
        let verb = said[0].as_str();
        if same(verb, "toggle") {
            if said.len() == 1 {
                assert(text_words(line@).len() == 1);
                return Err("toggle needs a module name".to_owned());
            }
            assert(text_words(line@)[1] == said@[1]@);
            let name = said[1].as_str();
            match ModuleId::parse_declared(name, names) {
                Some(module) => Ok(Command::Toggle(module)),
                None => Err(concat3("unknown module `", name, "`")),
            }
        } else if same(verb, "close") {
            Ok(Command::Close)
        } else if same(verb, "reload") {
            Ok(Command::Reload)
        } else if same(verb, "brightness-mode") {
            let mut said = said;
            said.remove(0);
            assert(texts(said@) =~= text_words(line@).skip(1));
            if said.len() == 0 {
                assert(text_words(line@).len() == 1);
                Ok(Command::BrightnessMode(None))
            } else {
                Ok(Command::BrightnessMode(Some(join(&said, " "))))
            }
        } else {
            Err(concat3("unknown command `", verb, "`"))
        }
    }
}

/// Where the control socket is: in the runtime directory, or else in the
/// temporary one, under the name of the display.
pub fn socket_path(runtime: Option<&str>, temporary: &str, display: Option<&str>) -> (r: String)
    ensures
        r@ == seen_from(
            match runtime {
                Some(dir) => dir@,
                None => temporary@,
            },
            "cosmicbar-"@ + (match display {
                Some(display) => display@,
                None => "wayland-0"@,
            }) + ".sock"@,
        ),
{
    let dir: &str = match runtime {
        Some(dir) => dir,
        None => temporary,
    };
    let display: &str = match display {
        Some(display) => display,
        None => "wayland-0",
    };
    join_path(dir, concat3("cosmicbar-", display, ".sock").as_str())
}

} // verus!
