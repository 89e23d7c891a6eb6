# dxtr_imgs

Core of Dextryx Images, a local desktop photo-management shell, written in
Verus.

- `src/domain.rs`: workplace and asset identity, storage modes, effective
  paths and relinking.
- `src/application.rs`: repository contracts, message keys and the English
  translator.
- `src/platform.rs`: file-dialog and application-path contracts.
- `src/engine.rs`: owned RGBA8 images, ordinary raster decoding and the scan
  of RAW containers for their largest decodable embedded JPEG preview.
- `src/viewport.rs`: validation of developed buffers and their conversion to
  the renderer's BGRA8 order.
- `src/outside.rs`: the std types carried through the library.
- `app/`: the GPUI desktop shell, file reading, floating-point develop
  settings and displayable error types.
