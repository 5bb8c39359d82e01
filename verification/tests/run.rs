//! End-to-end formatting tests: whole input texts against their expected
//! rendered output under each spacing-context configuration.

use hyprfmt::config::Config;
use hyprfmt::config::SpacingContext;
use hyprfmt::parse;

fn run(config: Config, file: &str) -> String {
    let out = parse(config, &file.as_bytes().to_vec()).expect("error formatting");
    String::from_utf8(out).expect("output is valid text")
}

fn assert_fmt(expected: &str, actual: &str) {
    let exp: Vec<&str> = expected.split_terminator('\n').collect();
    let act: Vec<&str> = actual.split_terminator('\n').collect();
    let common = exp.len().min(act.len());
    for i in 0..common {
        assert_eq!(exp[i], act[i], "line {} differs", i + 1);
    }
    assert_eq!(exp.len(), act.len(), "line count differs");
}

fn file() -> &'static str {
    "################
### MONITORS ###
################  
  
# See https://wiki.hyprland.org/Configuring/Monitors/
monitor=,preferred,auto,auto  


# hello
foo=barbar
foo=bar  

# long long long comment  
$variable=assignment  

bind=foo,bar  
bind=,bar
bindl=,bar # comment
bindl=;bar;baz # comment
bindl=bar baz # comment

ident {
something=elseelseelseelseelse # foo
something=$variable                    # foo
}



# this stays here
ident2 {
something=elseelseelseelse # foo
something=elseelse                    # foo
}
bind=[command,command] #not-spaced
bind=,a,b,##escaped,$d # wow
ident2 {
something=elseelseelseelse # foo
something=elseelse                    # foo

foo=bar
foo=bar # comment

ident3 {

foooooooo=# nothing-here
barbarbarbar=foooooooo
}
}


foo = bar"
}

#[test]
fn test_comment_spacing_context_category() {
    let mut config = Config::default();
    config.comment_spacing_context = SpacingContext::Category;

    let expected = "################
### MONITORS ###
################

# See https://wiki.hyprland.org/Configuring/Monitors/
monitor = ,preferred,auto,auto


# hello
foo = barbar
foo = bar

# long long long comment
$variable = assignment

bind  = foo,bar
bind  = ,bar
bindl = ,bar     # comment
bindl = ;bar;baz # comment
bindl = bar baz  # comment

ident {
  something = elseelseelseelseelse # foo
  something = $variable            # foo
}


# this stays here
ident2 {
  something = elseelseelseelse # foo
  something = elseelse         # foo
}

bind = [command,command] # not-spaced
bind = ,a,b,##escaped,$d # wow

ident2 {
  something      = elseelseelseelse # foo
  something      = elseelse         # foo

  foo            = bar
  foo            = bar              # comment

  ident3 {
    foooooooo    =                  # nothing-here
    barbarbarbar = foooooooo
  }
}


foo = bar";

    let actual = run(config, file());

    assert_fmt(expected, &actual);

    // Formatting already-formatted output reproduces it exactly.
    assert_eq!(run(config, &actual), actual);
}

#[test]
fn test_comment_spacing_context_block() {
    let mut config = Config::default();
    config.comment_spacing_context = SpacingContext::Block;

    let expected = "################
### MONITORS ###
################

# See https://wiki.hyprland.org/Configuring/Monitors/
monitor = ,preferred,auto,auto


# hello
foo = barbar
foo = bar

# long long long comment
$variable = assignment

bind  = foo,bar
bind  = ,bar
bindl = ,bar     # comment
bindl = ;bar;baz # comment
bindl = bar baz  # comment

ident {
  something = elseelseelseelseelse # foo
  something = $variable            # foo
}


# this stays here
ident2 {
  something = elseelseelseelse # foo
  something = elseelse         # foo
}

bind = [command,command] # not-spaced
bind = ,a,b,##escaped,$d # wow

ident2 {
  something      = elseelseelseelse # foo
  something      = elseelse         # foo

  foo            = bar
  foo            = bar # comment

  ident3 {
    foooooooo    =           # nothing-here
    barbarbarbar = foooooooo
  }
}


foo = bar";

    let actual = run(config, file());

    assert_fmt(expected, &actual);

    // Formatting already-formatted output reproduces it exactly.
    assert_eq!(run(config, &actual), actual);
}

#[test]
fn test_comment_spacing_context_file() {
    let mut config = Config::default();
    config.comment_spacing_context = SpacingContext::File;

    let expected = "################
### MONITORS ###
################

# See https://wiki.hyprland.org/Configuring/Monitors/
monitor = ,preferred,auto,auto


# hello
foo = barbar
foo = bar

# long long long comment
$variable = assignment

bind  = foo,bar
bind  = ,bar
bindl = ,bar                        # comment
bindl = ;bar;baz                    # comment
bindl = bar baz                     # comment

ident {
  something = elseelseelseelseelse  # foo
  something = $variable             # foo
}


# this stays here
ident2 {
  something = elseelseelseelse      # foo
  something = elseelse              # foo
}

bind = [command,command]            # not-spaced
bind = ,a,b,##escaped,$d            # wow

ident2 {
  something      = elseelseelseelse # foo
  something      = elseelse         # foo

  foo            = bar
  foo            = bar              # comment

  ident3 {
    foooooooo    =                  # nothing-here
    barbarbarbar = foooooooo
  }
}


foo = bar";

    let actual = run(config, file());

    assert_fmt(expected, &actual);

    // Formatting already-formatted output reproduces it exactly.
    assert_eq!(run(config, &actual), actual);
}

#[test]
fn test_eq_spacing_context_category() {
    let mut config = Config::default();
    config.eq_spacing_context = SpacingContext::Category;

    let expected = "################
### MONITORS ###
################

# See https://wiki.hyprland.org/Configuring/Monitors/
monitor = ,preferred,auto,auto


# hello
foo = barbar
foo = bar

# long long long comment
$variable = assignment

bind  = foo,bar
bind  = ,bar
bindl = ,bar     # comment
bindl = ;bar;baz # comment
bindl = bar baz  # comment

ident {
  something = elseelseelseelseelse # foo
  something = $variable            # foo
}


# this stays here
ident2 {
  something = elseelseelseelse # foo
  something = elseelse         # foo
}

bind = [command,command] # not-spaced
bind = ,a,b,##escaped,$d # wow

ident2 {
  something      = elseelseelseelse # foo
  something      = elseelse         # foo

  foo            = bar
  foo            = bar              # comment

  ident3 {
    foooooooo    =                  # nothing-here
    barbarbarbar = foooooooo
  }
}


foo = bar";

    let actual = run(config, file());

    assert_fmt(expected, &actual);

    // Formatting already-formatted output reproduces it exactly.
    assert_eq!(run(config, &actual), actual);
}

#[test]
fn test_eq_spacing_context_block() {
    let mut config = Config::default();
    config.eq_spacing_context = SpacingContext::Block;

    let expected = "################
### MONITORS ###
################

# See https://wiki.hyprland.org/Configuring/Monitors/
monitor = ,preferred,auto,auto


# hello
foo = barbar
foo = bar

# long long long comment
$variable = assignment

bind  = foo,bar
bind  = ,bar
bindl = ,bar     # comment
bindl = ;bar;baz # comment
bindl = bar baz  # comment

ident {
  something = elseelseelseelseelse # foo
  something = $variable            # foo
}


# this stays here
ident2 {
  something = elseelseelseelse # foo
  something = elseelse         # foo
}

bind = [command,command] # not-spaced
bind = ,a,b,##escaped,$d # wow

ident2 {
  something = elseelseelseelse # foo
  something = elseelse         # foo

  foo = bar
  foo = bar                    # comment

  ident3 {
    foooooooo    =             # nothing-here
    barbarbarbar = foooooooo
  }
}


foo = bar";

    let actual = run(config, file());

    assert_fmt(expected, &actual);

    // Formatting already-formatted output reproduces it exactly.
    assert_eq!(run(config, &actual), actual);
}

#[test]
fn test_eq_spacing_context_file() {
    let mut config = Config::default();
    config.eq_spacing_context = SpacingContext::File;

    let expected = "################
### MONITORS ###
################

# See https://wiki.hyprland.org/Configuring/Monitors/
monitor          = ,preferred,auto,auto


# hello
foo              = barbar
foo              = bar

# long long long comment
$variable        = assignment

bind             = foo,bar
bind             = ,bar
bindl            = ,bar     # comment
bindl            = ;bar;baz # comment
bindl            = bar baz  # comment

ident {
  something      = elseelseelseelseelse # foo
  something      = $variable            # foo
}


# this stays here
ident2 {
  something      = elseelseelseelse # foo
  something      = elseelse         # foo
}

bind             = [command,command] # not-spaced
bind             = ,a,b,##escaped,$d # wow

ident2 {
  something      = elseelseelseelse # foo
  something      = elseelse         # foo

  foo            = bar
  foo            = bar              # comment

  ident3 {
    foooooooo    =                  # nothing-here
    barbarbarbar = foooooooo
  }
}


foo              = bar";

    let actual = run(config, file());

    assert_fmt(expected, &actual);

    // Formatting already-formatted output reproduces it exactly.
    assert_eq!(run(config, &actual), actual);
}
