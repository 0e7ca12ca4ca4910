use vstd::prelude::*;

use crate::text::{find_first, find_last, first_at, last_at, strip_suffixes, trim_suffixes};

verus! {

/// The fields that a route file's name encodes.
pub struct Route {
    pub game_mode: String,
    pub map: String,
    pub side: String,
    pub class: String,
    pub username: String,
    pub route_name: String,
    pub time: String,
    pub file_name: String,
}

/// A route's fields as plain values.
pub ghost struct RouteView {
    pub game_mode: Seq<char>,
    pub map: Seq<char>,
    pub side: Seq<char>,
    pub class: Seq<char>,
    pub username: Seq<char>,
    pub route_name: Seq<char>,
    pub time: Seq<char>,
    pub file_name: Seq<char>,
}

impl View for Route {
    type V = RouteView;

    open spec fn view(&self) -> RouteView {
        RouteView {
            game_mode: self.game_mode@,
            map: self.map@,
            side: self.side@,
            class: self.class@,
            username: self.username@,
            route_name: self.route_name@,
            time: self.time@,
            file_name: self.file_name@,
        }
    }
}

/// The text from position `a` to the end.
pub open spec fn after(s: Seq<char>, a: int) -> Seq<char> {
    s.subrange(a, s.len() as int)
}

/// Username, route name and time from what follows the class. Where the text holds
/// `.route`, the username ends at the first `_` and the time follows the last `_`;
/// otherwise the route name is bracketed: it follows the first `_(` and ends at the
/// last `)_`. The time loses every trailing `.route`.
pub open spec fn tail_fields(t: Seq<char>) -> (Seq<char>, Seq<char>, Seq<char>) {
    if first_at(t, ".route"@) is Some {
        match first_at(t, "_"@) {
            None => (t, Seq::empty(), Seq::empty()),
            Some(u) => {
                let rest = after(t, u + 1);
                match last_at(rest, "_"@) {
                    None => (t.subrange(0, u), Seq::empty(), Seq::empty()),
                    Some(v) => (t.subrange(0, u), rest.subrange(0, v), trim_suffixes(after(rest, v + 1), ".route"@)),
                }
            },
        }
    } else {
        match first_at(t, "_("@) {
            None => (t, Seq::empty(), Seq::empty()),
            Some(u) => {
                let rest = after(t, u + 2);
                match last_at(rest, ")_"@) {
                    None => (t.subrange(0, u), rest, Seq::empty()),
                    Some(v) => (t.subrange(0, u), rest.subrange(0, v), trim_suffixes(after(rest, v + 2), ".route"@)),
                }
            },
        }
    }
}

/// The route that a file name encodes: the game mode before the first `-`, then map,
/// side and class separated by `_`, then the tail; `None` where a separator is missing.
pub open spec fn route_of(f: Seq<char>) -> Option<RouteView> {
    match first_at(f, "-"@) {
        None => None,
        Some(p) => {
            let r0 = after(f, p + 1);
            match first_at(r0, "_"@) {
                None => None,
                Some(a) => {
                    let r1 = after(r0, a + 1);
                    match first_at(r1, "_"@) {
                        None => None,
                        Some(b) => {
                            let r2 = after(r1, b + 1);
                            match first_at(r2, "_"@) {
                                None => None,
                                Some(c) => {
                                    let tail = tail_fields(after(r2, c + 1));
                                    Some(
                                        RouteView {
                                            game_mode: f.subrange(0, p),
                                            map: r0.subrange(0, a),
                                            side: r1.subrange(0, b),
                                            class: r2.subrange(0, c),
                                            username: tail.0,
                                            route_name: tail.1,
                                            time: tail.2,
                                            file_name: f,
                                        },
                                    )
                                },
                            }
                        },
                    }
                },
            }
        },
    }
}

/// Splits the text that follows the class into username, route name and time.
fn split_tail(t: &str) -> (r: (String, String, String))
    ensures
        (r.0@, r.1@, r.2@) == tail_fields(t@),
{
    let n = t.unicode_len();
    if find_first(t, ".route").is_some() {
        match find_first(t, "_") {
            None => (String::from_str(t), String::new(), String::new()),
            Some(u) => {
                proof {
                    reveal_strlit("_");
                }
                let rest = t.substring_char(u + 1, n);
                match find_last(rest, "_") {
                    None => (String::from_str(t.substring_char(0, u)), String::new(), String::new()),
                    Some(v) => {
                        let m = rest.unicode_len();
                        (
                            String::from_str(t.substring_char(0, u)),
                            String::from_str(rest.substring_char(0, v)),
                            strip_suffixes(rest.substring_char(v + 1, m), ".route"),
                        )
                    },
                }
            },
        }
    } else {
        match find_first(t, "_(") {
            None => (String::from_str(t), String::new(), String::new()),
            Some(u) => {
                proof {
                    reveal_strlit("_(");
                }
                let rest = t.substring_char(u + 2, n);
                match find_last(rest, ")_") {
                    None => (String::from_str(t.substring_char(0, u)), String::from_str(rest), String::new()),
                    Some(v) => {
                        proof {
                            reveal_strlit(")_");
                        }
                        let m = rest.unicode_len();
                        (
                            String::from_str(t.substring_char(0, u)),
                            String::from_str(rest.substring_char(0, v)),
                            strip_suffixes(rest.substring_char(v + 2, m), ".route"),
                        )
                    },
                }
            },
        }
    }
}

/// Reads a route file's name into its fields, or `None` where the name lacks the `-`
/// after the game mode or one of the three `_` after map, side and class.
pub fn parse_route_format(file_name: &str) -> (r: Option<Route>)
    ensures
        match r {
            Some(route) => route_of(file_name@) == Some(route@),
            None => route_of(file_name@) is None,
        },
{
    proof {
        reveal_strlit("-");
        reveal_strlit("_");
    }
    let n = file_name.unicode_len();
    let p = match find_first(file_name, "-") {
        Some(p) => p,
        None => return None,
    };
    let r0 = file_name.substring_char(p + 1, n);
    let n0 = r0.unicode_len();
    let a = match find_first(r0, "_") {
        Some(a) => a,
        None => return None,
    };
    let r1 = r0.substring_char(a + 1, n0);
    let n1 = r1.unicode_len();
    let b = match find_first(r1, "_") {
        Some(b) => b,
        None => return None,
    };
    let r2 = r1.substring_char(b + 1, n1);
    let n2 = r2.unicode_len();
    let c = match find_first(r2, "_") {
        Some(c) => c,
        None => return None,
    };
    let tail = split_tail(r2.substring_char(c + 1, n2));
    Some(Route {
        game_mode: String::from_str(file_name.substring_char(0, p)),
        map: String::from_str(r0.substring_char(0, a)),
        side: String::from_str(r1.substring_char(0, b)),
        class: String::from_str(r2.substring_char(0, c)),
        username: tail.0,
        route_name: tail.1,
        time: tail.2,
        file_name: String::from_str(file_name),
    })
}

} // verus!
