# quake_lights

An LED light installation driven by earthquakes: it polls the USGS earthquake
feed, renders a frame on the GPU for each new earthquake, scales it by the
magnitude and pushes it to web clients (and, optionally, to an Art-Net node).

- `src/` is the verified library (Verus):
  - `art_net.rs`: the ArtDmx packet for a frame of LED data;
  - `earthquakes.rs`: the polling state (where the next query starts, which
    result is reported) and the query URL;
  - `renderer.rs`: the padded layout of the GPU read-back buffer and the
    removal of the row padding;
  - `websocket.rs`: the JSON text message sent to web clients.
- `app/` is the program around it: sockets, HTTP, the GPU, threads and the
  floating-point brightness scaling.
- `tests/` exercises the library on concrete values.
