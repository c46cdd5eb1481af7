use vstd::prelude::*;
use vstd::string::*;

use crate::render::{int_text, int_to_text};

verus! {

/// One snapshot of the window manager: its monitors, in order.
pub struct WmState {
    pub focused_monitor_id: i32,
    pub clients_count: i32,
    pub monitors: Vec<Monitor>,
}

pub struct FocusHistoryItem {
    pub monitor_id: i32,
    pub desktop_id: i32,
    pub node_id: i32,
}

pub struct Monitor {
    pub name: String,
    pub id: i32,
    pub randr_id: i32,
    pub focused_desktop_id: i32,
    pub desktops: Vec<Desktop>,
}

/// A desktop; without a root it holds no window.
pub struct Desktop {
    pub name: String,
    pub id: i32,
    pub focused_node_id: i32,
    pub root: Option<Node>,
}

/// A node of a desktop's binary window tree. A node with a client is a window.
pub struct Node {
    pub id: i32,
    pub client: Option<Client>,
    pub first_child: Option<Box<Node>>,
    pub second_child: Option<Box<Node>>,
    pub hidden: bool,
    pub sticky: bool,
    pub private: bool,
    pub locked: bool,
    pub marked: bool,
    pub split_type: String,
}

pub struct Client {
    pub class_name: String,
    pub urgent: bool,
    pub shown: bool,
}

/// The nodes of the tree under `n` that carry a client, depth first: a node
/// before its first subtree, the first subtree before the second.
pub open spec fn client_leaves(n: Node) -> Seq<Node>
    decreases n,
{
    let own: Seq<Node> = if n.client is Some {
        seq![n]
    } else {
        seq![]
    };
    let first: Seq<Node> = match n.first_child {
        Some(c) => client_leaves(*c),
        None => seq![],
    };
    let second: Seq<Node> = match n.second_child {
        Some(c) => client_leaves(*c),
        None => seq![],
    };
    own + first + second
}

/// The client leaves of a desktop: none when it has no tree.
pub open spec fn desktop_leaves(d: Desktop) -> Seq<Node> {
    match d.root {
        Some(r) => client_leaves(r),
        None => seq![],
    }
}

/// Every node that `client_leaves` yields carries a client.
pub proof fn lemma_leaves_have_clients(n: Node)
    ensures
        forall|i: int| 0 <= i < client_leaves(n).len() ==> (#[trigger] client_leaves(n)[i]).client is Some,
    decreases n,
{
    if let Some(c) = n.first_child {
        lemma_leaves_have_clients(*c);
    }
    if let Some(c) = n.second_child {
        lemma_leaves_have_clients(*c);
    }
    let own: Seq<Node> = if n.client is Some {
        seq![n]
    } else {
        seq![]
    };
    let first: Seq<Node> = match n.first_child {
        Some(c) => client_leaves(*c),
        None => seq![],
    };
    let second: Seq<Node> = match n.second_child {
        Some(c) => client_leaves(*c),
        None => seq![],
    };
    assert forall|i: int| 0 <= i < client_leaves(n).len() implies (#[trigger] client_leaves(n)[i]).client is Some by {
        if i < own.len() {
        } else if i < own.len() + first.len() {
            assert(client_leaves(n)[i] == first[i - own.len()]);
        } else {
            assert(client_leaves(n)[i] == second[i - own.len() - first.len()]);
        }
    }
}

/// The nodes that a sequence of references points to.
pub open spec fn nodes_of(s: Seq<&Node>) -> Seq<Node> {
    s.map_values(|n: &Node| *n)
}

/// The nodes under `root` that carry a client, in depth-first order.
pub fn get_client_nodes(root: &Node) -> (r: Vec<&Node>)
    ensures
        nodes_of(r@) == client_leaves(*root),
    decreases root,
{
    let mut result: Vec<&Node> = Vec::new();
    if root.client.is_some() {
        result.push(root);
    }
    if let Some(first) = &root.first_child {
        let mut sub = get_client_nodes(first);
        result.append(&mut sub);
    }
    if let Some(second) = &root.second_child {
        let mut sub = get_client_nodes(second);
        result.append(&mut sub);
    }
    proof {
        assert(nodes_of(result@) =~= client_leaves(*root));
    }
    result
}

/// The display part of the default socket name: the display name without
/// its first character (the `:`), or `0` when no display is set.
pub open spec fn display_part(display: Option<String>) -> Seq<char> {
    match display {
        Some(d) => if d@.len() > 0 {
            d@.drop_first()
        } else {
            seq![]
        },
        None => "0"@,
    }
}

/// The window manager's socket: the one the environment names, else
/// `/tmp/bspwm_<display>_<screen>-socket`.
pub fn socket_path(env_socket: Option<String>, display: Option<String>, screen: i32) -> (r: String)
    ensures
        r@ == match env_socket {
            Some(s) => s@,
            None => "/tmp/bspwm_"@ + display_part(display) + "_"@ + int_text(screen as int)
                + "-socket"@,
        },
{
    match env_socket {
        Some(s) => s,
        None => {
            let part = match &display {
                Some(d) => {
                    let n = d.as_str().unicode_len();
                    if n > 0 {
                        String::from_str(d.as_str().substring_char(1, n))
                    } else {
                        String::new()
                    }
                },
                None => String::from_str("0"),
            };
            String::from_str("/tmp/bspwm_").concat(part.as_str()).concat("_").concat(
                int_to_text(screen).as_str(),
            ).concat("-socket")
        },
    }
}

} // verus!
