//! Foreground and background colors for terminal (ANSI) or html output.

use vstd::prelude::*;
use vstd::string::*;
use crate::options::Options;

verus! {

pub const COLOR_LEVEL_1: &'static str = "190;190;190";
pub const COLOR_LEVEL_2: &'static str = "85;125;0";
pub const COLOR_LEVEL_3: &'static str = "170;0;0";
pub const COLOR_LEVEL_4: &'static str = "255;255;0";
pub const COLOR_ENERGY: &'static str = "255;255;0";
pub const COLOR_EXPANDO_WATER: &'static str = "0;0;135";
pub const COLOR_FOUNTAIN: &'static str = "135;135;255";
pub const COLOR_PUSH: &'static str = "168;137;102";
pub const COLOR_WOOD: &'static str = "139;69;19";
pub const COLOR_WIND: &'static str = "128;128;0";
pub const COLOR_IMPOSSIBLE: &'static str = "75;55;13";
pub const COLOR_SOIL0: &'static str = "75;55;13";
pub const COLOR_SOIL1: &'static str = "70;63;17";
pub const COLOR_SOIL2: &'static str = "64;73;22";
pub const COLOR_SOIL3: &'static str = "56;85;29";
pub const COLOR_SOIL4: &'static str = "47;97;36";
pub const COLOR_SOIL5: &'static str = "40;108;42";
pub const COLOR_SOIL6: &'static str = "33;118;47";
pub const COLOR_SOIL7: &'static str = "27;126;52";
pub const COLOR_SOIL8: &'static str = "21;135;56";
pub const COLOR_SOIL9: &'static str = "11;149;64";
pub const COLOR_SOIL10: &'static str = "0;163;71";
pub const COLOR_BLUE: &'static str = "0;255;255";

/// The opening tag of a foreground color.
pub open spec fn fg_open(html: bool, color: Seq<char>) -> Seq<char> {
    if html {
        "<span style='color: transparent; text-shadow: 0 0 0 rgb("@ + color + ")'>"@
    } else {
        "\x1b[38;2;"@ + color + "m"@
    }
}

/// The opening tag of a background color.
pub open spec fn bg_open(html: bool, color: Seq<char>) -> Seq<char> {
    if html {
        "<span style='background-color:rgb("@ + color + ")'>"@
    } else {
        "\x1b[48;2;"@ + color + "m"@
    }
}

/// The closing tag.
pub open spec fn color_close(html: bool) -> Seq<char> {
    if html {
        "</span>"@
    } else {
        "\x1b[0m"@
    }
}

/// `body` in a foreground color, unless the options turn foreground colors off.
pub open spec fn fg_colored(body: Seq<char>, color: Seq<char>, o: &Options) -> Seq<char> {
    if !o.paint_colors || !o.paint_fg_colors {
        body
    } else {
        fg_open(o.html_mode, color) + body + color_close(o.html_mode)
    }
}

/// `body` on a background color, unless the options turn background colors off.
pub open spec fn bg_colored(body: Seq<char>, color: Seq<char>, o: &Options) -> Seq<char> {
    if !o.paint_colors || !o.paint_bg_colors {
        body
    } else {
        bg_open(o.html_mode, color) + body + color_close(o.html_mode)
    }
}

fn get_fg_open_html(options: &Options, color: &str) -> (r: String)
    ensures
        r@ == fg_open(options.html_mode, color@),
{
    if options.html_mode {
        let mut s = String::from_str("<span style='color: transparent; text-shadow: 0 0 0 rgb(");
        s.append(color);
        s.append(")'>");
        s
    } else {
        let mut s = String::from_str("\x1b[38;2;");
        s.append(color);
        s.append("m");
        s
    }
}

fn get_bg_open_html(options: &Options, color: &str) -> (r: String)
    ensures
        r@ == bg_open(options.html_mode, color@),
{
    if options.html_mode {
        let mut s = String::from_str("<span style='background-color:rgb(");
        s.append(color);
        s.append(")'>");
        s
    } else {
        let mut s = String::from_str("\x1b[48;2;");
        s.append(color);
        s.append("m");
        s
    }
}

fn close_tag(options: &Options) -> (r: &'static str)
    ensures
        r@ == color_close(options.html_mode),
{
    if options.html_mode {
        "</span>"
    } else {
        "\x1b[0m"
    }
}

/// `str` in the foreground `color`.
pub fn add_fg_color_with_reset(str: &String, color: &str, options: &Options) -> (r: String)
    ensures
        r@ == fg_colored(str@, color@, options),
{
    if !options.paint_colors || !options.paint_fg_colors {
        return str.clone();
    }
    let mut s = get_fg_open_html(options, color);
    s.append(str.as_str());
    s.append(close_tag(options));
    s
}

/// `str` on the background `color`.
pub fn add_bg_color_with_reset(str: &String, color: &str, options: &Options) -> (r: String)
    ensures
        r@ == bg_colored(str@, color@, options),
{
    if !options.paint_colors || !options.paint_bg_colors {
        return str.clone();
    }
    let mut s = get_bg_open_html(options, color);
    s.append(str.as_str());
    s.append(close_tag(options));
    s
}

/// `str` twice in a row, in the foreground `color`.
pub fn add_fg_color_with_reset_double(str: &String, color: &str, options: &Options) -> (r: String)
    ensures
        r@ == (if !options.paint_colors || !options.paint_fg_colors {
            str@
        } else {
            fg_colored(str@ + str@, color@, options)
        }),
{
    if !options.paint_colors || !options.paint_fg_colors {
        return str.clone();
    }
    let mut s = get_fg_open_html(options, color);
    s.append(str.as_str());
    s.append(str.as_str());
    s.append(close_tag(options));
    s
}

/// `str` twice in a row, on the background `color`.
pub fn add_bg_color_with_reset_double(str: &String, color: &str, options: &Options) -> (r: String)
    ensures
        r@ == (if !options.paint_colors || !options.paint_bg_colors {
            str@
        } else {
            bg_colored(str@ + str@, color@, options)
        }),
{
    if !options.paint_colors || !options.paint_bg_colors {
        return str.clone();
    }
    let mut s = get_bg_open_html(options, color);
    s.append(str.as_str());
    s.append(str.as_str());
    s.append(close_tag(options));
    s
}

} // verus!
