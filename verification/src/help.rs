use vstd::prelude::*;

verus! {

/// The help listing: each command with its description, in the order
/// they are rendered.
pub fn render() -> (r: Vec<(String, String)>)
    ensures
        r@.len() == 2,
        r@[0].0@ == "help"@ && r@[0].1@ == "display help"@,
        r@[1].0@ == "quit"@ && r@[1].1@ == "quit application"@,
{
    let mut commands: Vec<(String, String)> = Vec::new();
    commands.push((String::from_str("help"), String::from_str("display help")));
    commands.push((String::from_str("quit"), String::from_str("quit application")));
    commands
}

} // verus!
