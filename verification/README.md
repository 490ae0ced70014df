# ValiraVPN Desktop

The desktop client for ValiraVPN: a WireGuard client that brings its own tunnel.

What the client decides is a Verus library, verified but for the calls into other
crates that it trusts. What it does (the window, the network, the files, the
processes it starts) is the program around it.

## Layout

    src/            the library
      api           what the control plane is asked, and what its answers mean
      client        what the window shows, and what each event does to it
      exits         the list of exits, folded by country
      flags         country flags, sliced out of an atlas
      flow          what the worker's tasks do, one step after the other
      frame         what each message of the Windows frame comes to
      geo, places   which country a node belongs to, and where it is
      keys          key pairs, and the text they travel as
      markers       which exits share a marker on the map
      order         sorting
      preview       the screens with sample data
      store         the session that is kept between runs
      text          text as sequences of characters
      tunnel        the two backends behind one interface
      units         amounts of traffic
      window        opening out, and one client to a machine
      worker        what the worker does next, and the renderer
      worldmap      the coastline
    tests/          tests of the library
    app/            the program

The program looks for `flags.bin` and `world-coast.bin` in a directory `assets`
beside the executable. It needs a Slint build with a windowing backend.

## What is trusted

The library calls `base64`, `boringtun`, `getrandom`, `serde_json`, `x25519-dalek`
and a few functions of the standard library. Each of those calls stands in a
function of its own, with a contract that is believed and a comment that says what
it claims.

## Settings

    VALIRA_API             control plane, defaults to https://valiravpn.com
    VALIRA_WIREGUARD       path to wireguard.exe, Windows only
    VALIRA_TUNNEL          pins the backend: embedded or system
    VALIRA_RENDERER        pins the renderer: software or gpu
    VALIRA_TUNNEL_TRACE    per-packet timings, written to the temp directory
    VALIRA_UI_PREVIEW      opens one screen with sample data and no account:
                           signin, choosing, connected, menu, profile or list,
                           and after a colon the kind of line: home or datacentre
