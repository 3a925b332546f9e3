//! The configuration written by the `init` command.
use crate::config::{default_config, ConfigView, ServerConfig, TomlConfig, TomlRoute, TomlTarget};
use crate::engine::types::{RouteDataView, TargetView, Transport};
use vstd::prelude::*;

verus! {

/// The initial configuration: the default settings and one HTTP route to
/// `127.0.0.1:3000` over both transports.
pub open spec fn init_config_view() -> ConfigView {
    ConfigView {
        protocols: seq![
            RouteDataView {
                name: "http"@,
                sni: None,
                patterns: None,
                forward_to: TargetView::Single("127.0.0.1:3000"@),
                transport: Transport::Both,
            },
        ],
        ..default_config()
    }
}

/// Builds the configuration that the `init` command writes.
pub fn init_config() -> (r: TomlConfig)
    ensures
        r@ == init_config_view(),
{
    let mut c = TomlConfig::default();
    c.protocols.push(
        TomlRoute {
            name: String::from_str("http"),
            sni: None,
            patterns: None,
            forward_to: TomlTarget::Single(String::from_str("127.0.0.1:3000")),
            transport: Transport::Both,
        },
    );
    assert(crate::config::toml_route_views(c.protocols@) =~= init_config_view().protocols);
    c
}

} // verus!
